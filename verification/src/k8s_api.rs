//! The live resource tree extractor's compute side: which API group serves
//! a kind, how its API resource description is derived, and how fetched
//! objects become intermediate resources.  The remote list calls themselves
//! happen outside; everything here is a function of its arguments.

use vstd::prelude::*;
use vstd::string::StringExecFns;

use crate::integration::IntegrationResource;
use crate::k8s_json::{
    containers_of, extracted_resource_ok, get_containers, owner_resource, resource_matches,
    resources_match, ExtractView,
};

verus! {

#[verifier::external_type_specification]
#[verifier::external_body]
pub struct ExApiResource(kube::core::ApiResource);

#[verifier::external_type_specification]
#[verifier::external_body]
pub struct ExDynamicObject(kube::core::DynamicObject);

/// What the `metadata.name` field of a dynamic object holds, if anything.
pub uninterp spec fn name_of(o: kube::core::DynamicObject) -> Option<Seq<char>>;

/// The kind and name of the first entry of a dynamic object's
/// `metadata.owner_references`, when one is declared.
pub uninterp spec fn owner_of_object(o: kube::core::DynamicObject) -> Option<(Seq<char>, Seq<char>)>;

/// The `data` field of a dynamic object: every field beyond its type and
/// metadata, as one json value.
pub uninterp spec fn data_of(o: kube::core::DynamicObject) -> serde_json::Value;

/// The five fields of an API resource description: group, version,
/// apiVersion, kind, plural.
pub uninterp spec fn api_resource_fields(r: kube::core::ApiResource) -> (
    Seq<char>,
    Seq<char>,
    Seq<char>,
    Seq<char>,
    Seq<char>,
);

/// What `str::to_lowercase` returns: a function of the characters alone.
pub uninterp spec fn lower_of(s: Seq<char>) -> Seq<char>;

/// Relies on `str::to_lowercase`: the result depends on the characters
/// alone.
#[verifier::external_body]
fn lowercase(s: &str) -> (r: String)
    ensures
        r@ == lower_of(s@),
{
    s.to_lowercase()
}

/// The API group serving a kind: the core group, named by the empty
/// string, unless the kind is a workload or an ingress.
pub open spec fn api_group_of(kind: Seq<char>) -> Seq<char> {
    if kind == "DaemonSet"@ || kind == "ReplicaSet"@ || kind == "Deployment"@ {
        "apps"@
    } else if kind == "Ingress"@ {
        "networking.k8s.io"@
    } else {
        ""@
    }
}

/// The API group and version to list a kind under.  Every kind the
/// compiler queries is served at version `v1` of its group.
pub fn get_api_params(kind: &str) -> (r: (&'static str, &'static str))
    ensures
        r.0@ == api_group_of(kind@),
        r.1@ == "v1"@,
{
    if crate::text::str_eq(kind, "DaemonSet") || crate::text::str_eq(kind, "ReplicaSet")
        || crate::text::str_eq(kind, "Deployment") {
        ("apps", "v1")
    } else if crate::text::str_eq(kind, "Ingress") {
        ("networking.k8s.io", "v1")
    } else {
        ("", "v1")
    }
}

/// The plain fields of an API resource description.
pub struct ApiResourceParams {
    pub group: String,
    pub version: String,
    pub api_version: String,
    pub kind: String,
    pub plural: String,
}

/// The API resource description of a kind: `apiVersion` is the version
/// alone for the core group and `group/version` otherwise, and the plural
/// is the lower-cased kind with an `s`.
pub fn build_api_resource(kind: &str, group: &str, version: &str) -> (r: ApiResourceParams)
    ensures
        r.group@ == group@,
        r.version@ == version@,
        r.api_version@ == if group@.len() == 0 {
            version@
        } else {
            group@ + "/"@ + version@
        },
        r.kind@ == kind@,
        r.plural@ == lower_of(kind@) + "s"@,
{
    let api_version = if group.is_empty() {
        version.to_owned()
    } else {
        let mut gv = group.to_owned();
        gv.append("/");
        gv.append(version);
        gv
    };
    let mut plural = lowercase(kind);
    plural.append("s");
    ApiResourceParams {
        group: group.to_owned(),
        version: version.to_owned(),
        api_version,
        kind: kind.to_owned(),
        plural,
    }
}

/// Relies on `kube::core::ApiResource` being a plain record of the five
/// fields: carries the derived parameters over, one field each.
#[verifier::external_body]
fn to_api_resource(p: ApiResourceParams) -> (r: kube::core::ApiResource)
    ensures
        api_resource_fields(r) == (p.group@, p.version@, p.api_version@, p.kind@, p.plural@),
{
    kube::core::ApiResource {
        group: p.group,
        version: p.version,
        api_version: p.api_version,
        kind: p.kind,
        plural: p.plural,
    }
}

/// The API resource description a live list call for a kind needs: the
/// kind's group, version `v1`, the apiVersion derived from them, the kind
/// itself, and the lower-cased plural.
pub fn api_resource_for(kind: &str) -> (r: kube::core::ApiResource)
    ensures
        ({
            let f = api_resource_fields(r);
            &&& f.0 == api_group_of(kind@)
            &&& f.1 == "v1"@
            &&& f.2 == if api_group_of(kind@).len() == 0 {
                "v1"@
            } else {
                api_group_of(kind@) + "/"@ + "v1"@
            }
            &&& f.3 == kind@
            &&& f.4 == lower_of(kind@) + "s"@
        }),
{
    let (group, version) = get_api_params(kind);
    let params = build_api_resource(kind, group, version);
    to_api_resource(params)
}

/// Relies on the `metadata.name` field of `kube::core::DynamicObject`:
/// a copy of the object's name, when it has one.
#[verifier::external_body]
fn dyn_object_name(o: &kube::core::DynamicObject) -> (r: Option<String>)
    ensures
        match r {
            Some(s) => name_of(*o) == Some(s@),
            None => name_of(*o) is None,
        },
{
    o.metadata.name.clone()
}

/// Relies on the `metadata.owner_references` field of
/// `kube::core::DynamicObject`: the kind and name of the first declared
/// owner, when one is declared.
#[verifier::external_body]
fn dyn_object_owner(o: &kube::core::DynamicObject) -> (r: Option<(String, String)>)
    ensures
        match r {
            Some(pair) => owner_of_object(*o) == Some((pair.0@, pair.1@)),
            None => owner_of_object(*o) is None,
        },
{
    o.metadata
        .owner_references
        .as_ref()
        .and_then(|refs| refs.first())
        .map(|owner_ref| (owner_ref.kind.clone(), owner_ref.name.clone()))
}

/// Relies on the `data` field of `kube::core::DynamicObject`: every field
/// of the object beyond its type and metadata, as one json value.
#[verifier::external_body]
fn dyn_object_data<'a>(o: &'a kube::core::DynamicObject) -> (r: &'a serde_json::Value)
    ensures
        *r == data_of(*o),
{
    &o.data
}

/// The view of one fetched object under a kind tag, when it carries a
/// name; nameless objects have none and are skipped.
pub open spec fn object_view(o: kube::core::DynamicObject, kind: Seq<char>) -> Option<ExtractView> {
    match name_of(o) {
        Some(n) => Some(
            ExtractView {
                name: n,
                kind: kind,
                owner: owner_of_object(o),
                containers: containers_of(data_of(o)),
            },
        ),
        None => None,
    }
}

/// `object_view` under a fixed kind as a function value.
pub open spec fn object_view_fn(kind: Seq<char>) -> spec_fn(kube::core::DynamicObject) -> Option<
    ExtractView,
> {
    |o: kube::core::DynamicObject| object_view(o, kind)
}

/// Everything one live list call extracts: the views of the named fetched
/// objects, in list order.
pub open spec fn objects_extracted(
    objs: Seq<kube::core::DynamicObject>,
    kind: Seq<char>,
) -> Seq<ExtractView> {
    objs.filter_map(object_view_fn(kind))
}

/// `filter_map` over a sequence grown by one element.
proof fn lemma_filter_map_push<A, B>(s: Seq<A>, f: spec_fn(A) -> Option<B>, e: A)
    ensures
        s.push(e).filter_map(f) == (match f(e) {
            Some(b) => s.filter_map(f).push(b),
            None => s.filter_map(f),
        }),
{
    assert(s.push(e).drop_last() =~= s);
    assert(s.push(e).last() == e);
    match f(e) {
        Some(b) => {
            assert(s.push(e).filter_map(f) =~= s.filter_map(f).push(b));
        },
        None => {
            assert(s.push(e).filter_map(f) =~= s.filter_map(f));
        },
    }
}

/// The kinds the live source queries, in traversal order.  The list is a
/// configuration point, not a correctness requirement.
pub fn live_kind_list() -> (r: Vec<String>)
    ensures
        r@.len() == 7,
        r@[0]@ == "Deployment"@,
        r@[1]@ == "DaemonSet"@,
        r@[2]@ == "ReplicaSet"@,
        r@[3]@ == "Service"@,
        r@[4]@ == "ConfigMap"@,
        r@[5]@ == "Ingress"@,
        r@[6]@ == "Pod"@,
{
    let mut kinds: Vec<String> = Vec::new();
    kinds.push("Deployment".to_owned());
    kinds.push("DaemonSet".to_owned());
    kinds.push("ReplicaSet".to_owned());
    kinds.push("Service".to_owned());
    kinds.push("ConfigMap".to_owned());
    kinds.push("Ingress".to_owned());
    kinds.push("Pod".to_owned());
    kinds
}

/// One intermediate resource per fetched object that carries a name, in
/// list order, with that name, its owner copy and its container tree,
/// exactly as the static extractor shapes them: the named extraction of
/// the fetched objects.
pub fn extract_integration_resources(kind: &str, resource_list: Vec<kube::core::DynamicObject>)
    -> (r: Vec<IntegrationResource>)
    ensures
        forall|i: int| 0 <= i < r@.len() ==> extracted_resource_ok(#[trigger] r@[i], kind@),
        resources_match(r@, objects_extracted(resource_list@, kind@)),
{
    let ghost objs = resource_list@;
    let mut resources: Vec<IntegrationResource> = Vec::new();
    proof {
        assert(objs.subrange(0, 0) =~= Seq::<kube::core::DynamicObject>::empty());
        assert(Seq::<kube::core::DynamicObject>::empty().filter_map(object_view_fn(kind@)) =~= Seq::<
            ExtractView,
        >::empty());
    }
    let n = resource_list.len();
    let mut i: usize = 0;
    while i < n
        invariant
            n == objs.len(),
            objs == resource_list@,
            0 <= i <= n,
            forall|k: int|
                0 <= k < resources@.len() ==> extracted_resource_ok(
                    #[trigger] resources@[k],
                    kind@,
                ),
            resources@.len() == objs.subrange(0, i as int).filter_map(object_view_fn(kind@)).len(),
            forall|k: int|
                0 <= k < resources@.len() ==> resource_matches(
                    #[trigger] resources@[k],
                    objs.subrange(0, i as int).filter_map(object_view_fn(kind@))[k],
                ),
        decreases n - i,
    {
        proof {
            assert(objs.subrange(0, i as int + 1) =~= objs.subrange(0, i as int).push(
                objs[i as int],
            ));
            lemma_filter_map_push(objs.subrange(0, i as int), object_view_fn(kind@), objs[i as int]);
        }
        let resource = &resource_list[i];
        if let Some(name) = dyn_object_name(resource) {
            let owner_reference = dyn_object_owner(resource);
            let containers = get_containers(dyn_object_data(resource));
            let owner = owner_resource(owner_reference);
            proof {
                assert(object_view_fn(kind@)(objs[i as int]) == Some(
                    ExtractView {
                        name: name@,
                        kind: kind@,
                        owner: owner_of_object(objs[i as int]),
                        containers: containers_of(data_of(objs[i as int])),
                    },
                ));
            }
            resources.push(IntegrationResource::new(name, kind.to_owned(), owner, containers));
        } else {
            proof {
                assert(object_view_fn(kind@)(objs[i as int]) is None);
            }
        }
        i += 1;
    }
    proof {
        assert(objs.subrange(0, n as int) =~= objs);
    }
    resources
}

} // verus!
