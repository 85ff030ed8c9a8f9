//! The static resource tree extractor: path queries over an already-parsed
//! cluster document, yielding intermediate resources.  What the extractor
//! returns is pinned, record for record, to the named results of the
//! document reads (`selected_of`, `json_member_of`, ...), so the contracts
//! here say which records come back, with which names, owners and nesting.

use vstd::prelude::*;
use vstd::string::StringExecFns;

use crate::compiler::{
    door_pairs_ok, lemma_compiled_doors_paired, try_compile_topology, units_topology,
    KindSnapshot, NamespaceSnapshot, TopologySnapshot,
};
use crate::floorplan::{edge_views, room_views, FloorPlan, FloorPlanError, FloorPlanResult};
use crate::integration::IntegrationResource;
use crate::jsonval::{
    json_array_of, json_as_array, json_as_str, json_get, json_member_of, json_of_yaml,
    json_select, json_str_of, parse_topology_document, safe_query, selected_of, selection_query,
    yaml_value_of,
};

verus! {

/// What the extractor promises of a volume mount entry.
pub open spec fn mount_ok(m: IntegrationResource) -> bool {
    &&& m.kind@ == "VolumeMount"@
    &&& m.parent is None
    &&& m.children@.len() == 0
}

/// What the extractor promises of a container entry: its mounts nest one
/// level down and no deeper.
pub open spec fn container_ok(c: IntegrationResource) -> bool {
    &&& c.kind@ == "Container"@
    &&& c.parent is None
    &&& forall|j: int| 0 <= j < c.children@.len() ==> mount_ok(#[trigger] c.children@[j])
}

/// What the extractor promises of every resource it returns: the queried
/// kind, an owner that is a childless value copy if any, and containers
/// with their mounts below.
pub open spec fn extracted_resource_ok(r: IntegrationResource, kind: Seq<char>) -> bool {
    &&& r.kind@ == kind
    &&& match r.parent {
        Some(p) => p.children@.len() == 0 && p.parent is None,
        None => true,
    }
    &&& forall|i: int| 0 <= i < r.children@.len() ==> container_ok(#[trigger] r.children@[i])
}

/// The abstract content of one container record: its name and the names of
/// its named volume mounts, in document order.
pub ghost struct ContainerView {
    pub name: Seq<char>,
    pub mounts: Seq<Seq<char>>,
}

/// The abstract content of one extracted resource record.
pub ghost struct ExtractView {
    pub name: Seq<char>,
    pub kind: Seq<char>,
    pub owner: Option<(Seq<char>, Seq<char>)>,
    pub containers: Seq<ContainerView>,
}

/// The name a volume mount record carries, if any.
pub open spec fn mount_name_fn() -> spec_fn(serde_json::Value) -> Option<Seq<char>> {
    |m: serde_json::Value| json_str_of(json_member_of(m, "name"@))
}

/// The volume mount names of one container record, in document order.
pub open spec fn mounts_of(c: serde_json::Value) -> Seq<Seq<char>> {
    match json_array_of(json_member_of(c, "volumeMounts"@)) {
        Some(vs) => vs.filter_map(mount_name_fn()),
        None => Seq::<Seq<char>>::empty(),
    }
}

/// The view of one container record, when it carries a name.
pub open spec fn container_view_of(c: serde_json::Value) -> Option<ContainerView> {
    match json_str_of(json_member_of(c, "name"@)) {
        Some(n) => Some(ContainerView { name: n, mounts: mounts_of(c) }),
        None => None,
    }
}

/// `container_view_of` as a function value, shared by every proof site.
pub open spec fn container_view_fn() -> spec_fn(serde_json::Value) -> Option<ContainerView> {
    |c: serde_json::Value| container_view_of(c)
}

/// The container views of one resource record, in document order.
pub open spec fn containers_of(v: serde_json::Value) -> Seq<ContainerView> {
    match json_array_of(json_member_of(json_member_of(v, "spec"@), "containers"@)) {
        Some(cs) => cs.filter_map(container_view_fn()),
        None => Seq::<ContainerView>::empty(),
    }
}

/// The kind and name of a record's first declared owner, when both fields
/// are strings; owners past the first are not modeled.
pub open spec fn owner_of_record(v: serde_json::Value) -> Option<(Seq<char>, Seq<char>)> {
    match json_array_of(json_member_of(json_member_of(v, "metadata"@), "ownerReferences"@)) {
        Some(refs) => if refs.len() == 0 {
            None
        } else {
            match (json_str_of(json_member_of(refs[0], "kind"@)), json_str_of(
                json_member_of(refs[0], "name"@),
            )) {
                (Some(k), Some(n)) => Some((k, n)),
                _ => None,
            }
        },
        None => None,
    }
}

/// The view of one matched record under a kind tag, when it carries a
/// name; nameless records have none and are skipped.
pub open spec fn record_view(v: serde_json::Value, kind: Seq<char>) -> Option<ExtractView> {
    match json_str_of(json_member_of(json_member_of(v, "metadata"@), "name"@)) {
        Some(n) => Some(
            ExtractView { name: n, kind: kind, owner: owner_of_record(v), containers: containers_of(v) },
        ),
        None => None,
    }
}

/// `record_view` under a fixed kind as a function value.
pub open spec fn record_view_fn(kind: Seq<char>) -> spec_fn(serde_json::Value) -> Option<
    ExtractView,
> {
    |v: serde_json::Value| record_view(v, kind)
}

/// Everything `get_names` returns for a document, kind and namespace: the
/// views of the named records the selection query matches, in match order.
pub open spec fn records_of(doc: serde_json::Value, kind: Seq<char>, namespace: Seq<char>) -> Seq<
    ExtractView,
> {
    selected_of(doc, selection_query(kind, namespace)).filter_map(record_view_fn(kind))
}

/// `json_str_of` as a function value.
pub open spec fn json_str_fn() -> spec_fn(serde_json::Value) -> Option<Seq<char>> {
    |v: serde_json::Value| json_str_of(v)
}

/// The string values among a query's matches, in match order.
pub open spec fn strings_of(vals: Seq<serde_json::Value>) -> Seq<Seq<char>> {
    vals.filter_map(json_str_fn())
}

/// First-appearance deduplication of a string sequence.
pub open spec fn dedup_first(s: Seq<Seq<char>>) -> Seq<Seq<char>>
    decreases s.len(),
{
    if s.len() == 0 {
        Seq::<Seq<char>>::empty()
    } else {
        let d = dedup_first(s.drop_last());
        if d.contains(s.last()) {
            d
        } else {
            d.push(s.last())
        }
    }
}

/// Everything `get_namespaces` returns for a document.
pub open spec fn namespaces_of(doc: serde_json::Value) -> Seq<Seq<char>> {
    dedup_first(strings_of(selected_of(doc, "$..metadata.namespace"@)))
}

/// The views of a string vector.
pub open spec fn string_views(v: Seq<String>) -> Seq<Seq<char>> {
    v.map_values(|s: String| s@)
}

/// Whether an intermediate mount entry renders one mount name.
pub open spec fn mount_matches(m: IntegrationResource, name: Seq<char>) -> bool {
    &&& m.name@ == name
    &&& mount_ok(m)
}

/// Whether an intermediate container entry renders one container view.
pub open spec fn container_matches(c: IntegrationResource, cv: ContainerView) -> bool {
    &&& c.name@ == cv.name
    &&& c.kind@ == "Container"@
    &&& c.parent is None
    &&& c.children@.len() == cv.mounts.len()
    &&& forall|k: int| 0 <= k < cv.mounts.len() ==> mount_matches(#[trigger] c.children@[k], cv.mounts[k])
}

/// Whether an intermediate resource renders one record view: that name and
/// kind, the owner as a childless value copy exactly when one is declared,
/// and one container entry per container view.
pub open spec fn resource_matches(r: IntegrationResource, x: ExtractView) -> bool {
    &&& r.name@ == x.name
    &&& r.kind@ == x.kind
    &&& match x.owner {
        Some(o) => (r.parent matches Some(p) && p.kind@ == o.0 && p.name@ == o.1
            && p.children@.len() == 0 && p.parent is None),
        None => r.parent is None,
    }
    &&& r.children@.len() == x.containers.len()
    &&& forall|j: int|
        0 <= j < x.containers.len() ==> container_matches(#[trigger] r.children@[j], x.containers[j])
}

/// Whether a resource list renders a record view list, element for element.
pub open spec fn resources_match(rs: Seq<IntegrationResource>, xs: Seq<ExtractView>) -> bool {
    &&& rs.len() == xs.len()
    &&& forall|k: int| 0 <= k < xs.len() ==> resource_matches(#[trigger] rs[k], xs[k])
}

/// `filter_map` over a sequence grown by one element.
proof fn lemma_filter_map_push<A, B>(s: Seq<A>, f: spec_fn(A) -> Option<B>, e: A)
    ensures
        s.push(e).filter_map(f) == (match f(e) {
            Some(b) => s.filter_map(f).push(b),
            None => s.filter_map(f),
        }),
{
    assert(s.push(e).drop_last() =~= s);
    assert(s.push(e).last() == e);
    match f(e) {
        Some(b) => {
            assert(s.push(e).filter_map(f) =~= s.filter_map(f).push(b));
        },
        None => {
            assert(s.push(e).filter_map(f) =~= s.filter_map(f));
        },
    }
}

/// `dedup_first` over a sequence grown by one element.
proof fn lemma_dedup_first_push(s: Seq<Seq<char>>, x: Seq<char>)
    ensures
        dedup_first(s.push(x)) == if dedup_first(s).contains(x) {
            dedup_first(s)
        } else {
            dedup_first(s).push(x)
        },
{
    assert(s.push(x).drop_last() =~= s);
    assert(s.push(x).last() == x);
}

/// Whether some string in `strings` reads as `s`.
pub open spec fn has_string(strings: Seq<String>, s: Seq<char>) -> bool {
    exists|i: int| 0 <= i < strings.len() && strings[i]@ == s
}

/// Whether `v` holds a string reading as `s`.
fn contains_string(v: &Vec<String>, s: &str) -> (r: bool)
    ensures
        r == has_string(v@, s@),
{
    let n = v.len();
    let mut i: usize = 0;
    while i < n
        invariant
            n == v@.len(),
            0 <= i <= n,
            forall|k: int| 0 <= k < i ==> v@[k]@ != s@,
        decreases n - i,
    {
        if crate::text::str_eq(v[i].as_str(), s) {
            return true;
        }
        i += 1;
    }
    false
}

/// Every namespace the document mentions under `metadata.namespace`, each
/// once, in order of first appearance; an error only when the path query
/// itself cannot run.
pub fn get_namespaces(json_value: &serde_json::Value) -> (r: FloorPlanResult<Vec<String>>)
    ensures
        r matches Ok(v) ==> forall|i: int, j: int| 0 <= i < j < v@.len() ==> v@[i]@ != v@[j]@,
        r matches Ok(v) ==> string_views(v@) == namespaces_of(*json_value),
        r matches Err(e) ==> e is ServiceError,
{
    let found = match json_select(json_value, "$..metadata.namespace") {
        Ok(found) => found,
        Err(e) => {
            return Err(FloorPlanError::ServiceError(e));
        },
    };
    let ghost vs = found@;
    let mut namespaces: Vec<String> = Vec::new();
    proof {
        assert(vs.subrange(0, 0) =~= Seq::<serde_json::Value>::empty());
        assert(Seq::<serde_json::Value>::empty().filter_map(json_str_fn()) =~= Seq::<
            Seq<char>,
        >::empty());
        assert(string_views(namespaces@) =~= Seq::<Seq<char>>::empty());
    }
    let n = found.len();
    let mut i: usize = 0;
    while i < n
        invariant
            n == vs.len(),
            vs == found@,
            0 <= i <= n,
            forall|k1: int, k2: int|
                0 <= k1 < k2 < namespaces@.len() ==> namespaces@[k1]@ != namespaces@[k2]@,
            string_views(namespaces@) == dedup_first(strings_of(vs.subrange(0, i as int))),
        decreases n - i,
    {
        proof {
            assert(vs.subrange(0, i as int + 1) =~= vs.subrange(0, i as int).push(vs[i as int]));
            lemma_filter_map_push(vs.subrange(0, i as int), json_str_fn(), vs[i as int]);
        }
        if let Some(ns) = json_as_str(&found[i]) {
            proof {
                assert(json_str_fn()(vs[i as int]) == Some(ns@));
                lemma_dedup_first_push(strings_of(vs.subrange(0, i as int)), ns@);
            }
            let already = contains_string(&namespaces, ns.as_str());
            proof {
                let d = string_views(namespaces@);
                if has_string(namespaces@, ns@) {
                    let k = choose|k: int|
                        0 <= k < namespaces@.len() && namespaces@[k]@ == ns@;
                    assert(d[k] == ns@);
                    assert(d.contains(ns@));
                }
                if d.contains(ns@) {
                    let k = choose|k: int| 0 <= k < d.len() && d[k] == ns@;
                    assert(namespaces@[k]@ == ns@);
                    assert(has_string(namespaces@, ns@));
                }
            }
            if !already {
                let ghost before = namespaces@;
                namespaces.push(ns);
                proof {
                    assert(string_views(namespaces@) =~= string_views(before).push(
                        namespaces@[namespaces@.len() - 1]@,
                    ));
                }
            }
        } else {
            proof {
                assert(json_str_fn()(vs[i as int]) is None);
            }
        }
        i += 1;
    }
    proof {
        assert(vs.subrange(0, n as int) =~= vs);
    }
    Ok(namespaces)
}

/// The first declared owner of a record, as its kind and name; `None` when
/// no owner with both fields is declared.
fn get_owner_reference(v: &serde_json::Value) -> (r: Option<(String, String)>)
    ensures
        match r {
            Some(pair) => owner_of_record(*v) == Some((pair.0@, pair.1@)),
            None => owner_of_record(*v) is None,
        },
{
    let refs = match json_as_array(json_get(json_get(v, "metadata"), "ownerReferences")) {
        Some(refs) => refs,
        None => {
            return None;
        },
    };
    if refs.len() == 0 {
        return None;
    }
    let owner_ref = &refs[0];
    let owner_kind = json_as_str(json_get(owner_ref, "kind"));
    let owner_name = json_as_str(json_get(owner_ref, "name"));
    match (owner_kind, owner_name) {
        (Some(kind), Some(name)) => Some((kind, name)),
        _ => None,
    }
}

/// The owner as an intermediate resource: a childless value copy of the
/// owner's name and kind, never a back-reference.
pub fn owner_resource(owner_reference: Option<(String, String)>) -> (r: Option<
    IntegrationResource,
>)
    ensures
        match owner_reference {
            Some(pair) => r matches Some(o) && o.name == pair.1 && o.kind == pair.0 && o.parent
                is None && o.children@.len() == 0,
            None => r is None,
        },
{
    match owner_reference {
        Some((kind, name)) => Some(IntegrationResource::new(name, kind, None, Vec::new())),
        None => None,
    }
}

/// The volume mounts of one container record: one leaf entry per mount
/// that carries a name, in document order.
fn get_volume_mounts(container: &serde_json::Value) -> (r: Vec<IntegrationResource>)
    ensures
        forall|i: int| 0 <= i < r@.len() ==> mount_ok(#[trigger] r@[i]),
        r@.len() == mounts_of(*container).len(),
        forall|i: int| 0 <= i < r@.len() ==> mount_matches(#[trigger] r@[i], mounts_of(*container)[i]),
{
    let mut out: Vec<IntegrationResource> = Vec::new();
    let volume_mounts = match json_as_array(json_get(container, "volumeMounts")) {
        Some(vms) => vms,
        None => {
            return out;
        },
    };
    let ghost vs = volume_mounts@;
    proof {
        assert(mounts_of(*container) == vs.filter_map(mount_name_fn()));
        assert(vs.subrange(0, 0) =~= Seq::<serde_json::Value>::empty());
        assert(Seq::<serde_json::Value>::empty().filter_map(mount_name_fn()) =~= Seq::<
            Seq<char>,
        >::empty());
    }
    let n = volume_mounts.len();
    let mut i: usize = 0;
    while i < n
        invariant
            n == vs.len(),
            vs == volume_mounts@,
            0 <= i <= n,
            forall|k: int| 0 <= k < out@.len() ==> mount_ok(#[trigger] out@[k]),
            out@.len() == vs.subrange(0, i as int).filter_map(mount_name_fn()).len(),
            forall|k: int|
                0 <= k < out@.len() ==> mount_matches(
                    #[trigger] out@[k],
                    vs.subrange(0, i as int).filter_map(mount_name_fn())[k],
                ),
        decreases n - i,
    {
        proof {
            assert(vs.subrange(0, i as int + 1) =~= vs.subrange(0, i as int).push(vs[i as int]));
            lemma_filter_map_push(vs.subrange(0, i as int), mount_name_fn(), vs[i as int]);
        }
        if let Some(name) = json_as_str(json_get(&volume_mounts[i], "name")) {
            proof {
                assert(mount_name_fn()(vs[i as int]) == Some(name@));
            }
            out.push(IntegrationResource::new(name, "VolumeMount".to_owned(), None, Vec::new()));
        } else {
            proof {
                assert(mount_name_fn()(vs[i as int]) is None);
            }
        }
        i += 1;
    }
    proof {
        assert(vs.subrange(0, n as int) =~= vs);
    }
    out
}

/// The containers of one record, each with its volume mounts nested one
/// level down: one entry per container that carries a name, in document
/// order.
pub fn get_containers(v: &serde_json::Value) -> (r: Vec<IntegrationResource>)
    ensures
        forall|i: int| 0 <= i < r@.len() ==> container_ok(#[trigger] r@[i]),
        r@.len() == containers_of(*v).len(),
        forall|i: int|
            0 <= i < r@.len() ==> container_matches(#[trigger] r@[i], containers_of(*v)[i]),
{
    let mut out: Vec<IntegrationResource> = Vec::new();
    let containers = match json_as_array(json_get(json_get(v, "spec"), "containers")) {
        Some(cs) => cs,
        None => {
            return out;
        },
    };
    let ghost cs = containers@;
    proof {
        assert(containers_of(*v) == cs.filter_map(container_view_fn()));
        assert(cs.subrange(0, 0) =~= Seq::<serde_json::Value>::empty());
        assert(Seq::<serde_json::Value>::empty().filter_map(container_view_fn()) =~= Seq::<
            ContainerView,
        >::empty());
    }
    let n = containers.len();
    let mut i: usize = 0;
    while i < n
        invariant
            n == cs.len(),
            cs == containers@,
            0 <= i <= n,
            forall|k: int| 0 <= k < out@.len() ==> container_ok(#[trigger] out@[k]),
            out@.len() == cs.subrange(0, i as int).filter_map(container_view_fn()).len(),
            forall|k: int|
                0 <= k < out@.len() ==> container_matches(
                    #[trigger] out@[k],
                    cs.subrange(0, i as int).filter_map(container_view_fn())[k],
                ),
        decreases n - i,
    {
        proof {
            assert(cs.subrange(0, i as int + 1) =~= cs.subrange(0, i as int).push(cs[i as int]));
            lemma_filter_map_push(cs.subrange(0, i as int), container_view_fn(), cs[i as int]);
        }
        let container = &containers[i];
        if let Some(name) = json_as_str(json_get(container, "name")) {
            let volume_mounts = get_volume_mounts(container);
            proof {
                assert(container_view_fn()(cs[i as int]) == Some(
                    ContainerView { name: name@, mounts: mounts_of(cs[i as int]) },
                ));
            }
            out.push(IntegrationResource::new(name, "Container".to_owned(), None, volume_mounts));
        } else {
            proof {
                assert(container_view_fn()(cs[i as int]) is None);
            }
        }
        i += 1;
    }
    proof {
        assert(cs.subrange(0, n as int) =~= cs);
    }
    out
}

/// Every resource of the given kind in the given namespace that carries a
/// name, with its owner copy and its container tree, in match order:
/// exactly the named records of the selection query.  Records without a
/// name are silently skipped; zero matches are success with an empty list.
/// An error comes when the query cannot run, or when the kind or namespace
/// holds a quote or backslash, which the query syntax cannot carry.
pub fn get_names(json_value: &serde_json::Value, kind: &str, namespace: &str) -> (r:
    FloorPlanResult<Vec<IntegrationResource>>)
    ensures
        r matches Ok(v) ==> forall|i: int|
            0 <= i < v@.len() ==> extracted_resource_ok(#[trigger] v@[i], kind@),
        r matches Ok(v) ==> resources_match(v@, records_of(*json_value, kind@, namespace@)),
        r matches Err(e) ==> e is ServiceError,
        (kind@.contains('\'') || kind@.contains('\\') || namespace@.contains('\'')
            || namespace@.contains('\\')) ==> r is Err,
{
    if crate::text::str_contains_char(kind, '\'') || crate::text::str_contains_char(kind, '\\')
        || crate::text::str_contains_char(namespace, '\'') || crate::text::str_contains_char(
        namespace,
        '\\',
    ) {
        return Err(
            FloorPlanError::ServiceError(
                "kind or namespace holds a quote or backslash".to_owned(),
            ),
        );
    }
    let mut query = "$..[?(@.kind == '".to_owned();
    query.append(kind);
    query.append("' && @.metadata.namespace == '");
    query.append(namespace);
    query.append("')]");
    proof {
        assert(query@ == selection_query(kind@, namespace@));
        assert(safe_query(query@));
    }

    let found = match json_select(json_value, query.as_str()) {
        Ok(found) => found,
        Err(e) => {
            return Err(FloorPlanError::ServiceError(e));
        },
    };
    let ghost vs = found@;
    let mut resources: Vec<IntegrationResource> = Vec::new();
    proof {
        assert(vs.subrange(0, 0) =~= Seq::<serde_json::Value>::empty());
        assert(Seq::<serde_json::Value>::empty().filter_map(record_view_fn(kind@)) =~= Seq::<
            ExtractView,
        >::empty());
    }
    let n = found.len();
    let mut i: usize = 0;
    while i < n
        invariant
            n == vs.len(),
            vs == found@,
            vs == selected_of(*json_value, selection_query(kind@, namespace@)),
            0 <= i <= n,
            forall|k: int|
                0 <= k < resources@.len() ==> extracted_resource_ok(
                    #[trigger] resources@[k],
                    kind@,
                ),
            resources@.len() == vs.subrange(0, i as int).filter_map(record_view_fn(kind@)).len(),
            forall|k: int|
                0 <= k < resources@.len() ==> resource_matches(
                    #[trigger] resources@[k],
                    vs.subrange(0, i as int).filter_map(record_view_fn(kind@))[k],
                ),
        decreases n - i,
    {
        proof {
            assert(vs.subrange(0, i as int + 1) =~= vs.subrange(0, i as int).push(vs[i as int]));
            lemma_filter_map_push(vs.subrange(0, i as int), record_view_fn(kind@), vs[i as int]);
        }
        let v = &found[i];
        let name = json_as_str(json_get(json_get(v, "metadata"), "name"));
        let owner_reference = get_owner_reference(v);
        let containers = get_containers(v);
        let owner = owner_resource(owner_reference);
        if let Some(n2) = name {
            proof {
                assert(record_view_fn(kind@)(vs[i as int]) == Some(
                    ExtractView {
                        name: n2@,
                        kind: kind@,
                        owner: owner_of_record(vs[i as int]),
                        containers: containers_of(vs[i as int]),
                    },
                ));
            }
            resources.push(IntegrationResource::new(n2, kind.to_owned(), owner, containers));
        } else {
            proof {
                assert(record_view_fn(kind@)(vs[i as int]) is None);
            }
        }
        i += 1;
    }
    proof {
        assert(vs.subrange(0, n as int) =~= vs);
    }
    Ok(resources)
}

/// What one extracted kind snapshot promises: the queried kind tag, and
/// every resource shaped as the extractor shapes them.
pub open spec fn kind_snapshot_ok(ks: KindSnapshot, kind: Seq<char>) -> bool {
    &&& ks.kind@ == kind
    &&& forall|k: int|
        0 <= k < ks.resources@.len() ==> extracted_resource_ok(#[trigger] ks.resources@[k], kind)
}

/// What one extracted namespace snapshot promises: one kind snapshot per
/// queried kind, in query order.
pub open spec fn ns_snapshot_ok(ns: NamespaceSnapshot, kinds: Seq<String>) -> bool {
    &&& ns.kinds@.len() == kinds.len()
    &&& forall|j: int|
        0 <= j < kinds.len() ==> kind_snapshot_ok(#[trigger] ns.kinds@[j], kinds[j]@)
}

/// One kind snapshot's resources render the named extraction of the
/// document, or the pair's query could not run and they are empty.
pub open spec fn kind_extracted(
    ks: KindSnapshot,
    doc: serde_json::Value,
    kind: Seq<char>,
    namespace: Seq<char>,
) -> bool {
    &&& ks.kind@ == kind
    &&& (resources_match(ks.resources@, records_of(doc, kind, namespace)) || ks.resources@.len()
        == 0)
}

/// A snapshot renders the named extraction of a document under a kind
/// list: one namespace per deduplicated `metadata.namespace` string, in
/// first-appearance order, and for each (namespace, kind) pair either the
/// query's named records or, where that one query could not run, nothing.
pub open spec fn snapshot_extracted(
    s: TopologySnapshot,
    doc: serde_json::Value,
    kinds: Seq<String>,
) -> bool {
    &&& s.namespaces@.len() == namespaces_of(doc).len()
    &&& forall|i: int|
        0 <= i < s.namespaces@.len() ==> (#[trigger] s.namespaces@[i]).name@ == namespaces_of(
            doc,
        )[i]
    &&& forall|i: int|
        0 <= i < s.namespaces@.len() ==> ns_snapshot_ok(#[trigger] s.namespaces@[i], kinds)
    &&& forall|i: int, j: int|
        0 <= i < s.namespaces@.len() && 0 <= j < kinds.len() ==> kind_extracted(
            #[trigger] s.namespaces@[i].kinds@[j],
            doc,
            kinds[j]@,
            namespaces_of(doc)[i],
        )
}

/// The kinds the static source queries, in traversal order.  The list is
/// a configuration point, not a correctness requirement.
pub fn static_kind_list() -> (r: Vec<String>)
    ensures
        r@.len() == 6,
        r@[0]@ == "Deployments"@,
        r@[1]@ == "DaemonSets"@,
        r@[2]@ == "ReplicaSets"@,
        r@[3]@ == "Services"@,
        r@[4]@ == "ConfigMaps"@,
        r@[5]@ == "Pod"@,
{
    let mut kinds: Vec<String> = Vec::new();
    kinds.push("Deployments".to_owned());
    kinds.push("DaemonSets".to_owned());
    kinds.push("ReplicaSets".to_owned());
    kinds.push("Services".to_owned());
    kinds.push("ConfigMaps".to_owned());
    kinds.push("Pod".to_owned());
    kinds
}

/// One extraction pass over a parsed document: every namespace the
/// document mentions, and for each the resources of every queried kind.
/// A failed query for one (kind, namespace) pair yields zero resources
/// for that pair, never an error; only a namespace query that cannot run
/// fails the pass.
pub fn build_topology_snapshot(json_value: &serde_json::Value, kinds: &Vec<String>) -> (r:
    FloorPlanResult<TopologySnapshot>)
    ensures
        r matches Ok(s) ==> {
            &&& forall|i: int, j: int|
                0 <= i < j < s.namespaces@.len() ==> (#[trigger] s.namespaces@[i]).name@ != (
                #[trigger] s.namespaces@[j]).name@
            &&& snapshot_extracted(s, *json_value, kinds@)
        },
        r matches Err(e) ==> e is ServiceError,
{
    let namespaces = match get_namespaces(json_value) {
        Ok(ns) => ns,
        Err(e) => {
            return Err(e);
        },
    };
    proof {
        assert forall|k: int| 0 <= k < namespaces@.len() implies namespaces@[k]@
            == namespaces_of(*json_value)[k] by {
            assert(string_views(namespaces@)[k] == namespaces@[k]@);
        }
    }
    let mut out: Vec<NamespaceSnapshot> = Vec::new();
    let n = namespaces.len();
    let mut i: usize = 0;
    while i < n
        invariant
            n == namespaces@.len(),
            0 <= i <= n,
            forall|k1: int, k2: int|
                0 <= k1 < k2 < namespaces@.len() ==> namespaces@[k1]@ != namespaces@[k2]@,
            namespaces@.len() == namespaces_of(*json_value).len(),
            forall|k: int|
                0 <= k < namespaces@.len() ==> namespaces@[k]@ == namespaces_of(*json_value)[k],
            out@.len() == i,
            forall|k: int| 0 <= k < i ==> (#[trigger] out@[k]).name@ == namespaces@[k]@,
            forall|k: int| 0 <= k < i ==> ns_snapshot_ok(#[trigger] out@[k], kinds@),
            forall|k: int, j: int|
                0 <= k < i && 0 <= j < kinds@.len() ==> kind_extracted(
                    #[trigger] out@[k].kinds@[j],
                    *json_value,
                    kinds@[j]@,
                    namespaces_of(*json_value)[k],
                ),
        decreases n - i,
    {
        let namespace = &namespaces[i];
        let mut kind_snapshots: Vec<KindSnapshot> = Vec::new();
        let m = kinds.len();
        let mut j: usize = 0;
        while j < m
            invariant
                m == kinds@.len(),
                0 <= j <= m,
                kind_snapshots@.len() == j,
                forall|k: int|
                    0 <= k < j ==> kind_snapshot_ok(#[trigger] kind_snapshots@[k], kinds@[k]@),
                forall|k: int|
                    0 <= k < j ==> kind_extracted(
                        #[trigger] kind_snapshots@[k],
                        *json_value,
                        kinds@[k]@,
                        namespace@,
                    ),
            decreases m - j,
        {
            let kind = &kinds[j];
            let resources = match get_names(json_value, kind.as_str(), namespace.as_str()) {
                Ok(rs) => rs,
                Err(_) => Vec::new(),
            };
            kind_snapshots.push(KindSnapshot { kind: kind.clone(), resources });
            j += 1;
        }
        out.push(NamespaceSnapshot { name: namespace.clone(), kinds: kind_snapshots });
        i += 1;
    }
    Ok(TopologySnapshot { namespaces: out })
}

/// The whole static path after the file read: parse the document, extract
/// a snapshot with the given kind list, and compile it.  A document that
/// does not parse is a fatal startup error for this path.
pub fn generate_floorplan_from_document(text: &str, kinds: &Vec<String>) -> (r: FloorPlanResult<
    FloorPlan,
>)
    ensures
        r matches Ok(plan) ==> {
            &&& plan.wf()
            &&& plan@.start == Some("cluster"@)
            &&& door_pairs_ok(edge_views(plan@.doors))
            &&& (yaml_value_of(text@) matches Some(y) && (json_of_yaml(y) matches Some(doc)
                && exists|s: TopologySnapshot|
                    {
                        &&& #[trigger] snapshot_extracted(s, doc, kinds@)
                        &&& room_views(plan@.rooms) == crate::compiler::sp_topology(s).rooms
                        &&& edge_views(plan@.doors) == crate::compiler::sp_topology(s).edges
                    }))
        },
        (match yaml_value_of(text@) {
            Some(y) => json_of_yaml(y) is None,
            None => true,
        }) ==> (r matches Err(e) && e is ServiceError),
        r matches Err(e) ==> e is ServiceError,
{
    let json_value = match parse_topology_document(text) {
        Some(v) => v,
        None => {
            return Err(
                FloorPlanError::ServiceError("Failed to parse k8s yaml content".to_owned()),
            );
        },
    };
    let snapshot = match build_topology_snapshot(&json_value, kinds) {
        Ok(s) => s,
        Err(e) => {
            return Err(e);
        },
    };
    match try_compile_topology(&snapshot) {
        Ok(plan) => {
            proof {
                if units_topology(snapshot) <= 0x3FFF_FFFEusize as int {
                    lemma_compiled_doors_paired(snapshot);
                }
            }
            Ok(plan)
        },
        Err(e) => Err(e),
    }
}

} // verus!
