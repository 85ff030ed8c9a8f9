use floorplan::floorplan::{Door, FloorPlan, FloorPlanError, FloorPlanEvent, Room};

#[test]
fn test_add_room_and_door() {
    let mut floor_plan = FloorPlan::new();

    let room1 = Room {
        id: "1".to_string(),
        name: "Room 1".to_string(),
    };
    let room2 = Room {
        id: "2".to_string(),
        name: "Room 2".to_string(),
    };

    let room1_index = floor_plan.add_room(room1);
    let room2_index = floor_plan.add_room(room2);

    let door = Door {
        id: "1".to_string(),
        name: "Door 1".to_string(),
        is_exit: false,
    };
    floor_plan.add_door(room1_index, room2_index, door);

    let doors = floor_plan.get_doors(room1_index);
    assert_eq!(doors.len(), 1);
    assert_eq!(doors[0].name, "Door 1");

    match floor_plan.get_connected_room(room1_index, &doors[0].id) {
        Ok(connected_room) => assert_eq!(connected_room.name, "Room 2"),
        Err(_) => panic!("Connected room not found"),
    }
}

#[test]
fn test_get_connected_room() {
    let mut floor_plan = FloorPlan::new();

    let room1 = Room {
        id: "1".to_string(),
        name: "Room 1".to_string(),
    };
    let room2 = Room {
        id: "2".to_string(),
        name: "Room 2".to_string(),
    };
    let room3 = Room {
        id: "3".to_string(),
        name: "Room 3".to_string(),
    };

    let room1_index = floor_plan.add_room(room1);
    let room2_index = floor_plan.add_room(room2);
    let room3_index = floor_plan.add_room(room3);

    let door1 = Door {
        id: "1".to_string(),
        name: "Door 1".to_string(),
        is_exit: false,
    };
    let door2 = Door {
        id: "2".to_string(),
        name: "Door 2".to_string(),
        is_exit: false,
    };

    floor_plan.add_door(room1_index, room2_index, door1);
    floor_plan.add_door(room2_index, room3_index, door2);

    let doors = floor_plan.get_doors(room2_index);
    assert_eq!(doors.len(), 1);

    match floor_plan.get_connected_room(room2_index, &doors[0].id) {
        Ok(connected_room) => assert_eq!(connected_room.name, "Room 3"),
        Err(_) => panic!("Connected room not found for door 1"),
    }

    match floor_plan.get_connected_room(room2_index, &doors[0].id) {
        Ok(connected_room) => assert_eq!(connected_room.name, "Room 3"),
        Err(_) => panic!("Connected room not found for door 2"),
    }
}

#[test]
fn test_get_doors_and_connected_rooms() {
    let mut floor_plan = FloorPlan::new();

    let room1 = Room {
        id: "1".to_string(),
        name: "Room 1".to_string(),
    };
    let room2 = Room {
        id: "2".to_string(),
        name: "Room 2".to_string(),
    };
    let room3 = Room {
        id: "3".to_string(),
        name: "Room 3".to_string(),
    };

    floor_plan.add_room(room1.clone());
    floor_plan.add_room(room2.clone());
    floor_plan.add_room(room3.clone());

    let door1 = Door {
        id: "1".to_string(),
        name: "Door 1".to_string(),
        is_exit: false,
    };
    let door2 = Door {
        id: "2".to_string(),
        name: "Door 2".to_string(),
        is_exit: false,
    };

    floor_plan.add_door(
        floor_plan.get_room_idx_by_id(&room1.id).unwrap(),
        floor_plan.get_room_idx_by_id(&room2.id).unwrap(),
        door1.clone(),
    );
    floor_plan.add_door(
        floor_plan.get_room_idx_by_id(&room2.id).unwrap(),
        floor_plan.get_room_idx_by_id(&room3.id).unwrap(),
        door2.clone(),
    );

    match floor_plan.get_doors_and_connected_rooms(&room2.id) {
        Ok(doors_and_rooms) => {
            assert_eq!(doors_and_rooms.len(), 1);
            assert_eq!(doors_and_rooms[0].0.name, "Door 2");
            assert_eq!(doors_and_rooms[0].1.name, "Room 3");
        }
        Err(_) => panic!("Failed to get doors and connected rooms"),
    }
}

#[test]
fn test_start_room() {
    let mut floor_plan = FloorPlan::new();

    let room1 = Room {
        id: "1".to_string(),
        name: "Room 1".to_string(),
    };
    let room2 = Room {
        id: "2".to_string(),
        name: "Room 2".to_string(),
    };

    floor_plan.add_room(room1.clone());
    floor_plan.add_room(room2.clone());

    assert_eq!(floor_plan.get_start_room().unwrap().name, "Room 1");

    floor_plan.set_start_room(&room2.id).unwrap();
    assert_eq!(floor_plan.get_start_room().unwrap().name, "Room 2");
}

#[test]
fn test_start_room_fails_only_on_empty_plan() {
    let mut floor_plan = FloorPlan::new();
    assert_eq!(
        floor_plan.get_start_room(),
        Err(FloorPlanError::RoomNotFound("Start room not set".to_string()))
    );

    floor_plan.add_room(Room {
        id: "a".to_string(),
        name: "A".to_string(),
    });
    assert!(floor_plan.get_start_room().is_ok());
}

#[test]
fn test_lookup_errors_carry_the_offending_id() {
    let mut floor_plan = FloorPlan::new();
    let ix = floor_plan.add_room(Room {
        id: "a".to_string(),
        name: "A".to_string(),
    });

    assert_eq!(
        floor_plan.get_room(7),
        Err(FloorPlanError::RoomNotFound("7".to_string()))
    );
    assert_eq!(
        floor_plan.get_room_by_id("missing"),
        Err(FloorPlanError::RoomNotFound("missing".to_string()))
    );
    assert_eq!(
        floor_plan.get_room_idx_by_id("missing"),
        Err(FloorPlanError::RoomNotFound("missing".to_string()))
    );
    assert_eq!(
        floor_plan.set_start_room("missing"),
        Err(FloorPlanError::RoomNotFound("missing".to_string()))
    );
    assert_eq!(
        floor_plan.get_connected_room(ix, "9"),
        Err(FloorPlanError::DoorNotFound("9".to_string()))
    );
    assert_eq!(
        floor_plan.get_doors_and_connected_rooms("missing"),
        Err(FloorPlanError::RoomNotFound("missing".to_string()))
    );
}

#[test]
fn test_duplicate_room_id_redirects_lookups() {
    let mut floor_plan = FloorPlan::new();
    floor_plan.add_room(Room {
        id: "a".to_string(),
        name: "First".to_string(),
    });
    floor_plan.add_room(Room {
        id: "a".to_string(),
        name: "Second".to_string(),
    });

    // both nodes exist, but the id now resolves to the newer room
    assert_eq!(floor_plan.get_world_size().0, 2);
    assert_eq!(floor_plan.get_room_by_id("a").unwrap().name, "Second");
    assert_eq!(floor_plan.get_all_room_ids(), vec!["a".to_string()]);
}

#[test]
fn test_get_doors_of_a_missing_node_is_empty() {
    let mut floor_plan = FloorPlan::new();
    floor_plan.add_room(Room {
        id: "a".to_string(),
        name: "A".to_string(),
    });
    assert!(floor_plan.get_doors(99).is_empty());
}

#[test]
fn test_equality_is_by_room_ids_and_start_not_doors() {
    let room_a = Room {
        id: "a".to_string(),
        name: "A".to_string(),
    };
    let room_b = Room {
        id: "b".to_string(),
        name: "B".to_string(),
    };

    let mut plan1 = FloorPlan::new();
    let i1 = plan1.add_room(room_a.clone());
    let i2 = plan1.add_room(room_b.clone());
    plan1.add_door(
        i1,
        i2,
        Door {
            id: "0".to_string(),
            name: "Door 0".to_string(),
            is_exit: false,
        },
    );

    // same room ids and start room, no doors at all: still the same plan
    let mut plan2 = FloorPlan::new();
    plan2.add_room(room_a.clone());
    plan2.add_room(room_b.clone());
    assert!(plan1 == plan2);

    // a different start room tells the plans apart
    plan2.set_start_room("b").unwrap();
    assert!(plan1 != plan2);

    // a different room id set tells the plans apart
    let mut plan3 = FloorPlan::new();
    plan3.add_room(room_a.clone());
    assert!(plan1 != plan3);
}

#[test]
fn test_floorplan_event_carries_the_plan() {
    let mut floor_plan = FloorPlan::new();
    floor_plan.add_room(Room {
        id: "a".to_string(),
        name: "A".to_string(),
    });
    let event = FloorPlanEvent {
        floorplan: floor_plan,
    };
    assert_eq!(event.floorplan.get_world_size(), (1, 0));
}

#[test]
fn test_world_size_and_room_ids() {
    let mut floor_plan = FloorPlan::new();
    assert_eq!(floor_plan.get_world_size(), (0, 0));

    let i1 = floor_plan.add_room(Room {
        id: "a".to_string(),
        name: "A".to_string(),
    });
    let i2 = floor_plan.add_room(Room {
        id: "b".to_string(),
        name: "B".to_string(),
    });
    floor_plan.add_door(
        i1,
        i2,
        Door {
            id: "0".to_string(),
            name: "Door 0".to_string(),
            is_exit: false,
        },
    );

    assert_eq!(floor_plan.get_world_size(), (2, 1));
    let mut ids = floor_plan.get_all_room_ids();
    ids.sort();
    assert_eq!(ids, vec!["a".to_string(), "b".to_string()]);
}
