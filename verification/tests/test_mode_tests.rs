use floorplan::test_mode::{
    create_doors, create_rooms, door_adder, generate_room25_floorplan, generate_room2_floorplan,
    generate_room5_floorplan,
};

#[test]
fn test_create_rooms_and_doors_are_numbered() {
    let rooms = create_rooms(3);
    assert_eq!(rooms.len(), 3);
    assert_eq!(rooms[0].id, "0");
    assert_eq!(rooms[2].name, "Room 2");

    let doors = create_doors(3);
    assert_eq!(doors.len(), 3);
    assert_eq!(doors[1].id, "1");
    assert_eq!(doors[1].name, "Door 1");
    assert!(!doors[1].is_exit);
}

#[test]
fn test_room2_floorplan() {
    let plan = generate_room2_floorplan().unwrap();
    assert_eq!(plan.get_world_size(), (2, 2));
    assert_eq!(plan.get_start_room().unwrap().name, "Room 0");

    let i0 = plan.get_room_idx_by_id("0").unwrap();
    assert_eq!(plan.get_doors(i0).len(), 1);
    assert_eq!(plan.get_connected_room(i0, "0").unwrap().name, "Room 1");
}

#[test]
fn test_room5_floorplan() {
    let plan = generate_room5_floorplan().unwrap();
    assert_eq!(plan.get_world_size(), (5, 8));
    assert_eq!(plan.get_start_room().unwrap().id, "0");

    // room 1 opens onto rooms 0, 2 and 3
    let entries = plan.get_doors_and_connected_rooms("1").unwrap();
    assert_eq!(entries.len(), 3);
    assert!(entries.iter().any(|(_, room)| room.id == "0"));
    assert!(entries.iter().any(|(_, room)| room.id == "2"));
    assert!(entries.iter().any(|(_, room)| room.id == "3"));
}

#[test]
fn test_room25_floorplan() {
    let plan = generate_room25_floorplan().unwrap();
    assert_eq!(plan.get_world_size(), (25, 52));
    assert_eq!(plan.get_start_room().unwrap().id, "0");

    // the hub room 11 opens onto nine other rooms, room 9 twice over
    let entries = plan.get_doors_and_connected_rooms("11").unwrap();
    assert_eq!(entries.len(), 10);
    assert!(entries.iter().any(|(_, room)| room.id == "17"));
    assert_eq!(
        entries.iter().filter(|(_, room)| room.id == "9").count(),
        2
    );
}

#[test]
fn test_door_adder_requires_both_rooms() {
    let mut plan = generate_room2_floorplan().unwrap();
    let rooms = create_rooms(3);
    let doors = create_doors(3);
    let r = door_adder(&mut plan, &rooms[0], &rooms[2], &doors[2]);
    assert!(r.is_err());
    assert_eq!(plan.get_world_size(), (2, 2));
}
