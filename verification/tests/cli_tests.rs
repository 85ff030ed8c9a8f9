use floorplan::cli::{
    effective_poll_secs, resolve_room_generator, PlayerType, RoomGeneratorType,
};

#[test]
fn test_defaults() {
    assert_eq!(PlayerType::default(), PlayerType::Demo1);
    assert_eq!(RoomGeneratorType::default(), RoomGeneratorType::Rooms5);
}

#[test]
fn test_resolve_room_generator() {
    assert_eq!(resolve_room_generator(None), RoomGeneratorType::K8sFile);
    assert_eq!(
        resolve_room_generator(Some(RoomGeneratorType::K8sLive)),
        RoomGeneratorType::K8sLive
    );
    assert_eq!(
        resolve_room_generator(Some(RoomGeneratorType::Rooms25)),
        RoomGeneratorType::Rooms25
    );
}

#[test]
fn test_effective_poll_secs() {
    assert_eq!(effective_poll_secs(None), 60);
    assert_eq!(effective_poll_secs(Some(5)), 5);
}
