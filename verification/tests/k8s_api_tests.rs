use floorplan::k8s_api::{
    api_resource_for, build_api_resource, extract_integration_resources, get_api_params,
    live_kind_list,
};
use k8s_openapi::apimachinery::pkg::apis::meta::v1::{ObjectMeta, OwnerReference};
use kube::api::DynamicObject;

#[test]
fn test_get_api_params_by_kind() {
    assert_eq!(get_api_params("Deployment"), ("apps", "v1"));
    assert_eq!(get_api_params("DaemonSet"), ("apps", "v1"));
    assert_eq!(get_api_params("ReplicaSet"), ("apps", "v1"));
    assert_eq!(get_api_params("Ingress"), ("networking.k8s.io", "v1"));
    assert_eq!(get_api_params("Pod"), ("", "v1"));
    assert_eq!(get_api_params("ConfigMap"), ("", "v1"));
}

#[test]
fn test_build_api_resource_core_group() {
    let params = build_api_resource("Pod", "", "v1");
    assert_eq!(params.group, "");
    assert_eq!(params.version, "v1");
    assert_eq!(params.api_version, "v1");
    assert_eq!(params.kind, "Pod");
    assert_eq!(params.plural, "pods");
}

#[test]
fn test_build_api_resource_named_group() {
    let params = build_api_resource("ReplicaSet", "apps", "v1");
    assert_eq!(params.api_version, "apps/v1");
    assert_eq!(params.plural, "replicasets");
}

#[test]
fn test_api_resource_for_carries_the_fields_over() {
    let resource = api_resource_for("Ingress");
    assert_eq!(resource.group, "networking.k8s.io");
    assert_eq!(resource.version, "v1");
    assert_eq!(resource.api_version, "networking.k8s.io/v1");
    assert_eq!(resource.kind, "Ingress");
    assert_eq!(resource.plural, "ingresss");
}

#[test]
fn test_live_kind_list_order() {
    let kinds = live_kind_list();
    assert_eq!(
        kinds,
        vec![
            "Deployment".to_string(),
            "DaemonSet".to_string(),
            "ReplicaSet".to_string(),
            "Service".to_string(),
            "ConfigMap".to_string(),
            "Ingress".to_string(),
            "Pod".to_string(),
        ]
    );
}

#[test]
fn test_extract_integration_resources_from_objects() {
    let with_owner = DynamicObject {
        types: None,
        metadata: ObjectMeta {
            name: Some("pod1".to_string()),
            owner_references: Some(vec![OwnerReference {
                kind: "ReplicaSet".to_string(),
                name: "rs1".to_string(),
                ..OwnerReference::default()
            }]),
            ..ObjectMeta::default()
        },
        data: serde_json::from_str(
            r#"{ "spec": { "containers": [
                { "name": "c1", "volumeMounts": [ { "name": "m1" } ] },
                { "name": "c2" }
            ] } }"#,
        )
        .unwrap(),
    };
    let nameless = DynamicObject {
        types: None,
        metadata: ObjectMeta::default(),
        data: serde_json::from_str("{}").unwrap(),
    };

    let resources = extract_integration_resources("Pod", vec![with_owner, nameless]);
    assert_eq!(resources.len(), 1);
    let pod = &resources[0];
    assert_eq!(pod.name, "pod1");
    assert_eq!(pod.kind, "Pod");
    let parent = pod.parent.as_ref().unwrap();
    assert_eq!(parent.kind, "ReplicaSet");
    assert_eq!(parent.name, "rs1");
    assert!(parent.children.is_empty());
    assert_eq!(pod.children.len(), 2);
    assert_eq!(pod.children[0].name, "c1");
    assert_eq!(pod.children[0].children.len(), 1);
    assert_eq!(pod.children[0].children[0].name, "m1");
    assert_eq!(pod.children[0].children[0].kind, "VolumeMount");
    assert_eq!(pod.children[1].name, "c2");
    assert!(pod.children[1].children.is_empty());
}
