use floorplan::integration::IntegrationResource;
use floorplan::k8s_json::{get_names, get_namespaces};

fn parse(text: &str) -> serde_json::Value {
    serde_json::from_str(text).expect("test document parses")
}

#[test]
fn test_get_names_with_parent_and_containers() {
    let json_value = parse(
        r#"{
            "items": [
                {
                    "kind": "Pod",
                    "metadata": {
                        "name": "pod1",
                        "namespace": "default",
                        "ownerReferences": [
                            {
                                "kind": "ReplicaSet",
                                "name": "rs1"
                            }
                        ]
                    },
                    "spec": {
                        "containers": [
                            {
                                "name": "container1"
                            },
                            {
                                "name": "container2"
                            }
                        ]
                    }
                },
                {
                    "kind": "Pod",
                    "metadata": {
                        "name": "pod2",
                        "namespace": "default"
                    },
                    "spec": {
                        "containers": [
                            {
                                "name": "container3"
                            }
                        ]
                    }
                }
            ]
        }"#,
    );

    let result = get_names(&json_value, "Pod", "default").unwrap();
    assert_eq!(result.len(), 2);

    let pod1 = &result[0];
    assert_eq!(pod1.name, "pod1");
    assert_eq!(pod1.kind, "Pod");
    assert!(pod1.parent.is_some());
    let parent = pod1.parent.as_ref().unwrap();
    assert_eq!(parent.name, "rs1");
    assert_eq!(parent.kind, "ReplicaSet");
    assert_eq!(
        pod1.children,
        vec![
            IntegrationResource::new(
                "container1".to_string(),
                "Container".to_string(),
                None,
                Vec::new()
            ),
            IntegrationResource::new(
                "container2".to_string(),
                "Container".to_string(),
                None,
                Vec::new()
            ),
        ]
    );

    let pod2 = &result[1];
    assert_eq!(pod2.name, "pod2");
    assert_eq!(pod2.kind, "Pod");
    assert!(pod2.parent.is_none());
    assert_eq!(
        pod2.children,
        vec![IntegrationResource::new(
            "container3".to_string(),
            "Container".to_string(),
            None,
            Vec::new()
        ),]
    );
}

#[test]
fn test_get_names_without_parent_and_containers() {
    let json_value = parse(
        r#"{
            "items": [
                {
                    "kind": "Service",
                    "metadata": {
                        "name": "service1",
                        "namespace": "default"
                    }
                }
            ]
        }"#,
    );

    let result = get_names(&json_value, "Service", "default").unwrap();
    assert_eq!(result.len(), 1);

    let service = &result[0];
    assert_eq!(service.name, "service1");
    assert_eq!(service.kind, "Service");
    assert!(service.parent.is_none());
    assert!(service.children.is_empty());
}

#[test]
fn test_get_namespaces_deduplicates() {
    let json_value = parse(
        r#"{
            "items": [
                { "kind": "Pod", "metadata": { "name": "a", "namespace": "default" } },
                { "kind": "Pod", "metadata": { "name": "b", "namespace": "default" } },
                { "kind": "Pod", "metadata": { "name": "c", "namespace": "kube-system" } }
            ]
        }"#,
    );

    let namespaces = get_namespaces(&json_value).unwrap();
    assert_eq!(
        namespaces,
        vec!["default".to_string(), "kube-system".to_string()]
    );
}

#[test]
fn test_get_names_skips_records_without_a_name() {
    let json_value = parse(
        r#"{
            "items": [
                { "kind": "Pod", "metadata": { "namespace": "default" } },
                { "kind": "Pod", "metadata": { "name": "pod1", "namespace": "default" } }
            ]
        }"#,
    );

    let result = get_names(&json_value, "Pod", "default").unwrap();
    assert_eq!(result.len(), 1);
    assert_eq!(result[0].name, "pod1");
}

#[test]
fn test_get_names_empty_match_is_not_an_error() {
    let json_value = parse(r#"{ "items": [] }"#);
    let result = get_names(&json_value, "Pod", "default").unwrap();
    assert!(result.is_empty());
}

#[test]
fn test_get_names_rejects_quotes_in_the_query_names() {
    let json_value = parse(r#"{ "items": [] }"#);
    assert!(get_names(&json_value, "Po'd", "default").is_err());
    assert!(get_names(&json_value, "Pod", "def\\ault").is_err());
}

#[test]
fn test_volume_mounts_nest_under_containers() {
    let json_value = parse(
        r#"{
            "items": [
                {
                    "kind": "Pod",
                    "metadata": { "name": "pod1", "namespace": "default" },
                    "spec": {
                        "containers": [
                            {
                                "name": "c1",
                                "volumeMounts": [ { "name": "m1" }, { "name": "m2" } ]
                            }
                        ]
                    }
                }
            ]
        }"#,
    );

    let result = get_names(&json_value, "Pod", "default").unwrap();
    assert_eq!(result.len(), 1);
    let containers = &result[0].children;
    assert_eq!(containers.len(), 1);
    assert_eq!(containers[0].kind, "Container");
    let mounts = &containers[0].children;
    assert_eq!(mounts.len(), 2);
    assert_eq!(mounts[0].name, "m1");
    assert_eq!(mounts[0].kind, "VolumeMount");
    assert_eq!(mounts[1].name, "m2");
    assert!(mounts[1].children.is_empty());
}
