use floorplan::compiler::{
    compile_topology, connect_rooms_with_doors, try_compile_topology, KindSnapshot,
    NamespaceSnapshot, TopologySnapshot,
};
use floorplan::floorplan::{FloorPlan, FloorPlanError, Room};
use floorplan::integration::IntegrationResource;
use floorplan::k8s_json::generate_floorplan_from_document;
use floorplan::k8s_json::static_kind_list;

fn pod_snapshot(resources: Vec<IntegrationResource>) -> TopologySnapshot {
    TopologySnapshot {
        namespaces: vec![NamespaceSnapshot {
            name: "default".to_string(),
            kinds: vec![KindSnapshot {
                kind: "Pod".to_string(),
                resources,
            }],
        }],
    }
}

#[test]
fn test_connect_rooms_draws_one_pair_of_doors() {
    let mut plan = FloorPlan::new();
    let a = Room {
        id: "a".to_string(),
        name: "A".to_string(),
    };
    let b = Room {
        id: "b".to_string(),
        name: "B".to_string(),
    };
    let ia = plan.add_room(a.clone());
    let ib = plan.add_room(b.clone());

    let mut door_id: usize = 0;
    connect_rooms_with_doors(&mut plan, &a, &b, &mut door_id).unwrap();
    assert_eq!(door_id, 2);
    assert_eq!(plan.get_world_size(), (2, 2));

    let doors_a = plan.get_doors(ia);
    assert_eq!(doors_a.len(), 1);
    assert_eq!(doors_a[0].id, "0");
    assert_eq!(doors_a[0].name, "Door to B");
    assert!(!doors_a[0].is_exit);

    let doors_b = plan.get_doors(ib);
    assert_eq!(doors_b.len(), 1);
    assert_eq!(doors_b[0].id, "1");
    assert_eq!(doors_b[0].name, "Door to A");
    assert!(doors_b[0].is_exit);
}

#[test]
fn test_connect_rooms_missing_room_spends_one_counter_value() {
    let mut plan = FloorPlan::new();
    let a = Room {
        id: "a".to_string(),
        name: "A".to_string(),
    };
    plan.add_room(a.clone());
    let ghostly = Room {
        id: "b".to_string(),
        name: "B".to_string(),
    };

    let mut door_id: usize = 0;
    let r = connect_rooms_with_doors(&mut plan, &a, &ghostly, &mut door_id);
    assert_eq!(r, Err(FloorPlanError::RoomNotFound("b".to_string())));
    assert_eq!(door_id, 1);
    assert_eq!(plan.get_world_size(), (1, 0));
}

#[test]
fn test_compiled_doors_come_in_exclusive_pairs() {
    let snapshot = pod_snapshot(vec![IntegrationResource::new(
        "pod1".to_string(),
        "Pod".to_string(),
        None,
        Vec::new(),
    )]);
    let plan = compile_topology(&snapshot).unwrap();

    // lobby, namespace, hallway, resource: three connections, six doors
    assert_eq!(plan.get_world_size(), (4, 6));

    // every connection is one pair: an entry door from the inner room to
    // the outer one, an exit door back, consecutive ids
    let pairs = [
        ("default", "cluster", "0", "1"),
        ("default-Pods", "default", "2", "3"),
        ("default-Pod-pod1", "default-Pods", "4", "5"),
    ];
    for (inner, outer, entry_id, exit_id) in pairs {
        let i1 = plan.get_room_idx_by_id(inner).unwrap();
        let i2 = plan.get_room_idx_by_id(outer).unwrap();
        let entry = plan.get_connected_room(i1, entry_id).unwrap();
        assert_eq!(entry.id, outer);
        let exit = plan.get_connected_room(i2, exit_id).unwrap();
        assert_eq!(exit.id, inner);
        let doors1 = plan.get_doors(i1);
        let d_entry = doors1.iter().find(|d| d.id == entry_id).unwrap();
        assert!(!d_entry.is_exit);
        let doors2 = plan.get_doors(i2);
        let d_exit = doors2.iter().find(|d| d.id == exit_id).unwrap();
        assert!(d_exit.is_exit);
    }
}

#[test]
fn test_recompiling_unchanged_snapshot_gives_equal_plans() {
    let snapshot = pod_snapshot(vec![IntegrationResource::new(
        "pod1".to_string(),
        "Pod".to_string(),
        None,
        vec![IntegrationResource::new(
            "c1".to_string(),
            "Container".to_string(),
            None,
            Vec::new(),
        )],
    )]);

    let plan1 = compile_topology(&snapshot).unwrap();
    let plan2 = compile_topology(&snapshot).unwrap();

    assert!(plan1 == plan2);
    let mut ids1 = plan1.get_all_room_ids();
    let mut ids2 = plan2.get_all_room_ids();
    ids1.sort();
    ids2.sort();
    assert_eq!(ids1, ids2);
    assert_eq!(
        plan1.get_start_room().unwrap().id,
        plan2.get_start_room().unwrap().id
    );

    let other = pod_snapshot(Vec::new());
    let plan3 = compile_topology(&other).unwrap();
    assert!(plan1 != plan3);
}

#[test]
fn test_missing_owner_room_is_skipped_not_fatal() {
    let owner = IntegrationResource::new(
        "rs1".to_string(),
        "ReplicaSet".to_string(),
        None,
        Vec::new(),
    );
    let snapshot = pod_snapshot(vec![IntegrationResource::new(
        "pod1".to_string(),
        "Pod".to_string(),
        Some(owner),
        Vec::new(),
    )]);

    // the owner's room, default-ReplicaSet-rs1, is never compiled
    let plan = compile_topology(&snapshot).unwrap();
    assert_eq!(plan.get_world_size(), (4, 6));

    // the resource room has only its hallway connection, none to the owner
    let entries = plan.get_doors_and_connected_rooms("default-Pod-pod1").unwrap();
    assert_eq!(entries.len(), 1);
    assert_eq!(entries[0].1.id, "default-Pods");
}

#[test]
fn test_present_owner_room_is_connected() {
    let owner_copy = IntegrationResource::new(
        "rs1".to_string(),
        "ReplicaSet".to_string(),
        None,
        Vec::new(),
    );
    let snapshot = TopologySnapshot {
        namespaces: vec![NamespaceSnapshot {
            name: "default".to_string(),
            kinds: vec![
                KindSnapshot {
                    kind: "ReplicaSet".to_string(),
                    resources: vec![IntegrationResource::new(
                        "rs1".to_string(),
                        "ReplicaSet".to_string(),
                        None,
                        Vec::new(),
                    )],
                },
                KindSnapshot {
                    kind: "Pod".to_string(),
                    resources: vec![IntegrationResource::new(
                        "pod1".to_string(),
                        "Pod".to_string(),
                        Some(owner_copy),
                        Vec::new(),
                    )],
                },
            ],
        }],
    };

    let plan = compile_topology(&snapshot).unwrap();
    // lobby, namespace, two hallways, two resources; five pairs + owner pair
    assert_eq!(plan.get_world_size(), (6, 12));

    let entries = plan.get_doors_and_connected_rooms("default-Pod-pod1").unwrap();
    assert_eq!(entries.len(), 2);
    assert!(entries.iter().any(|(_, room)| room.id == "default-ReplicaSet-rs1"));
    assert!(entries.iter().any(|(_, room)| room.id == "default-Pods"));
}

#[test]
fn test_container_and_mount_rooms() {
    let c1 = IntegrationResource::new(
        "c1".to_string(),
        "Container".to_string(),
        None,
        vec![IntegrationResource::new(
            "m1".to_string(),
            "VolumeMount".to_string(),
            None,
            Vec::new(),
        )],
    );
    let c2 = IntegrationResource::new(
        "c2".to_string(),
        "Container".to_string(),
        None,
        Vec::new(),
    );
    let snapshot = pod_snapshot(vec![IntegrationResource::new(
        "pod1".to_string(),
        "Pod".to_string(),
        None,
        vec![c1, c2],
    )]);

    let plan = compile_topology(&snapshot).unwrap();

    // lobby, namespace, hallway, one resource room, two container rooms,
    // one mount room; each of the six connections is a pair of doors
    assert_eq!(plan.get_world_size(), (7, 12));

    assert!(plan.get_room_by_id("default-Pod-pod1").is_ok());
    assert!(plan.get_room_by_id("default-Pod-container-c1").is_ok());
    assert!(plan.get_room_by_id("default-Pod-container-c2").is_ok());
    assert!(plan.get_room_by_id("default-Pod-container-c1-m1").is_ok());

    // mount connects to its container, container to its resource
    let mount_entries = plan
        .get_doors_and_connected_rooms("default-Pod-container-c1-m1")
        .unwrap();
    assert_eq!(mount_entries.len(), 1);
    assert_eq!(mount_entries[0].1.id, "default-Pod-container-c1");

    let c1_entries = plan
        .get_doors_and_connected_rooms("default-Pod-container-c1")
        .unwrap();
    assert_eq!(c1_entries.len(), 2);
    assert!(c1_entries.iter().any(|(_, room)| room.id == "default-Pod-pod1"));
    assert!(c1_entries
        .iter()
        .any(|(door, room)| room.id == "default-Pod-container-c1-m1" && door.is_exit));
}

#[test]
fn test_compile_starts_at_the_lobby() {
    let snapshot = TopologySnapshot {
        namespaces: Vec::new(),
    };
    let plan = compile_topology(&snapshot).unwrap();
    assert_eq!(plan.get_world_size(), (1, 0));
    let start = plan.get_start_room().unwrap();
    assert_eq!(start.id, "cluster");
    assert_eq!(start.name, "Cluster Lobby");

    let checked = try_compile_topology(&snapshot).unwrap();
    assert!(checked == plan);
}

#[test]
fn test_generate_floorplan_from_document() {
    let yaml = r#"
items:
  - kind: Pod
    metadata:
      name: pod1
      namespace: default
    spec:
      containers:
        - name: c1
"#;
    let kinds = static_kind_list();
    let plan = generate_floorplan_from_document(yaml, &kinds).unwrap();

    // lobby, one namespace hallway, six kind hallways, one pod room under
    // the static list's "Pod" query, and its container room
    assert_eq!(plan.get_start_room().unwrap().id, "cluster");
    assert!(plan.get_room_by_id("default").is_ok());
    assert!(plan.get_room_by_id("default-Pods").is_ok());
    assert!(plan.get_room_by_id("default-Pod-pod1").is_ok());
    assert!(plan.get_room_by_id("default-Pod-container-c1").is_ok());
    let (rooms, doors) = plan.get_world_size();
    assert_eq!(rooms, 10);
    assert_eq!(doors, 18);
}

#[test]
fn test_unparsable_document_is_a_service_error() {
    let kinds = static_kind_list();
    let r = generate_floorplan_from_document(": not yaml: [", &kinds);
    assert!(matches!(r, Err(FloorPlanError::ServiceError(_))));
}
