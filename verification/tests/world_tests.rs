use floorplan::floorplan::{FloorPlan, Room};
use floorplan::world::{determine_you_are_here, process_floorplan_event, RefreshDecision};

fn two_room_plan() -> FloorPlan {
    let mut plan = FloorPlan::new();
    plan.add_room(Room {
        id: "a".to_string(),
        name: "A".to_string(),
    });
    plan.add_room(Room {
        id: "b".to_string(),
        name: "B".to_string(),
    });
    plan
}

#[test]
fn test_first_plan_is_adopted() {
    let incoming = two_room_plan();
    assert_eq!(
        process_floorplan_event(&None, &incoming),
        RefreshDecision::Adopt
    );
}

#[test]
fn test_unchanged_plan_is_kept() {
    let current = Some(two_room_plan());
    let incoming = two_room_plan();
    assert_eq!(
        process_floorplan_event(&current, &incoming),
        RefreshDecision::Keep
    );
}

#[test]
fn test_changed_plan_is_staged() {
    let current = Some(two_room_plan());
    let mut incoming = two_room_plan();
    incoming.add_room(Room {
        id: "c".to_string(),
        name: "C".to_string(),
    });
    assert_eq!(
        process_floorplan_event(&current, &incoming),
        RefreshDecision::Stage
    );
}

#[test]
fn test_you_are_here_is_the_start_room() {
    let plan = two_room_plan();
    assert_eq!(determine_you_are_here(&plan).unwrap().id, "a");
    assert!(determine_you_are_here(&FloorPlan::new()).is_none());
}
