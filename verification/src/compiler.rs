//! The topology compiler: walks a topology snapshot and builds a floorplan
//! with deterministic room ids and paired doors.

use vstd::prelude::*;
use vstd::std_specs::cmp::PartialEqSpec;
use vstd::string::StringExecFns;

use crate::floorplan::{
    edge_views, id_present, id_present_v, last_with_id_v, lemma_last_with_id_present,
    lemma_last_with_id_views, room_views, Door, DoorView, EdgeView, FloorPlan, FloorPlanError,
    FloorPlanResult, Room, RoomView,
};
use crate::integration::IntegrationResource;
use crate::text::dec_str;

verus! {

/// The resources of one kind in one namespace, as one extraction returned them.
pub struct KindSnapshot {
    pub kind: String,
    pub resources: Vec<IntegrationResource>,
}

/// One namespace with the extraction results for each queried kind, in
/// query order.
pub struct NamespaceSnapshot {
    pub name: String,
    pub kinds: Vec<KindSnapshot>,
}

/// Everything one compilation pass consumes, in traversal order.
pub struct TopologySnapshot {
    pub namespaces: Vec<NamespaceSnapshot>,
}

/// The name of a namespace hallway room; its id is the namespace itself.
pub open spec fn ns_room_name_v(ns: Seq<char>) -> Seq<char> {
    ns + " NS Hallway"@
}

/// The id of the hallway room collecting one kind within one namespace.
pub open spec fn hallway_room_id_v(ns: Seq<char>, kind: Seq<char>) -> Seq<char> {
    ns + "-"@ + kind + "s"@
}

/// The name of a kind hallway room.
pub open spec fn hallway_room_name_v(ns: Seq<char>, kind: Seq<char>) -> Seq<char> {
    ns + " "@ + kind + "s Hallway"@
}

/// The id of a resource room.
pub open spec fn resource_room_id_v(ns: Seq<char>, kind: Seq<char>, name: Seq<char>) -> Seq<char> {
    ns + "-"@ + kind + "-"@ + name
}

/// The name of a resource room.
pub open spec fn resource_room_name_v(kind: Seq<char>, name: Seq<char>) -> Seq<char> {
    kind + " "@ + name
}

/// The id of a container room nested under a resource.
pub open spec fn container_room_id_v(ns: Seq<char>, kind: Seq<char>, cname: Seq<char>) -> Seq<
    char,
> {
    ns + "-"@ + kind + "-container-"@ + cname
}

/// The name of a container room.
pub open spec fn container_room_name_v(cname: Seq<char>) -> Seq<char> {
    "container "@ + cname
}

/// The id of a volume mount room nested under a container.
pub open spec fn mount_room_id_v(
    ns: Seq<char>,
    kind: Seq<char>,
    cname: Seq<char>,
    mname: Seq<char>,
) -> Seq<char> {
    container_room_id_v(ns, kind, cname) + "-"@ + mname
}

/// The name of a volume mount room.
pub open spec fn mount_room_name_v(mname: Seq<char>) -> Seq<char> {
    "volume mount "@ + mname
}

/// The name a door gets: it names the room it leads to.
pub open spec fn door_name_v(other_room_name: Seq<char>) -> Seq<char> {
    "Door to "@ + other_room_name
}

/// The single lobby room every compilation starts from.
pub fn create_cluster_room() -> (r: Room)
    ensures
        r.id@ == "cluster"@,
        r.name@ == "Cluster Lobby"@,
{
    Room { id: "cluster".to_owned(), name: "Cluster Lobby".to_owned() }
}

/// The hallway room of one namespace.
pub fn create_namespace_room(namespace: &str) -> (r: Room)
    ensures
        r.id@ == namespace@,
        r.name@ == ns_room_name_v(namespace@),
{
    let mut name = namespace.to_owned();
    name.append(" NS Hallway");
    Room { id: namespace.to_owned(), name }
}

/// The hallway room of one kind within one namespace.
pub fn create_hallway_room(namespace: &str, kind: &str) -> (r: Room)
    ensures
        r.id@ == hallway_room_id_v(namespace@, kind@),
        r.name@ == hallway_room_name_v(namespace@, kind@),
{
    let mut id = namespace.to_owned();
    id.append("-");
    id.append(kind);
    id.append("s");
    let mut name = namespace.to_owned();
    name.append(" ");
    name.append(kind);
    name.append("s Hallway");
    Room { id, name }
}

/// The room of one resource.
pub fn create_resource_room(namespace: &str, r: &IntegrationResource) -> (room: Room)
    ensures
        room.id@ == resource_room_id_v(namespace@, r.kind@, r.name@),
        room.name@ == resource_room_name_v(r.kind@, r.name@),
{
    let mut id = namespace.to_owned();
    id.append("-");
    id.append(r.kind.as_str());
    id.append("-");
    id.append(r.name.as_str());
    let mut name = r.kind.clone();
    name.append(" ");
    name.append(r.name.as_str());
    Room { id, name }
}

/// The room of one container nested under a resource.
pub fn create_container_room(
    namespace: &str,
    r: &IntegrationResource,
    container: &IntegrationResource,
) -> (room: Room)
    ensures
        room.id@ == container_room_id_v(namespace@, r.kind@, container.name@),
        room.name@ == container_room_name_v(container.name@),
{
    let mut id = namespace.to_owned();
    id.append("-");
    id.append(r.kind.as_str());
    id.append("-container-");
    id.append(container.name.as_str());
    let mut name = "container ".to_owned();
    name.append(container.name.as_str());
    Room { id, name }
}

/// The room of one volume mount nested under a container.
pub fn create_volume_mount_room(
    namespace: &str,
    r: &IntegrationResource,
    container: &IntegrationResource,
    volume_mount: &IntegrationResource,
) -> (room: Room)
    ensures
        room.id@ == mount_room_id_v(namespace@, r.kind@, container.name@, volume_mount.name@),
        room.name@ == mount_room_name_v(volume_mount.name@),
{
    let mut id = namespace.to_owned();
    id.append("-");
    id.append(r.kind.as_str());
    id.append("-container-");
    id.append(container.name.as_str());
    id.append("-");
    id.append(volume_mount.name.as_str());
    let mut name = "volume mount ".to_owned();
    name.append(volume_mount.name.as_str());
    Room { id, name }
}

/// Edges `2k` and `2k + 1` form one connection's door pair: they join the
/// same two rooms in opposite directions, exactly one of the two is the
/// exit, and their ids are the consecutive decimals of their positions.
pub open spec fn pair_at(edges: Seq<EdgeView>, k: int) -> bool {
    let e1 = edges[2 * k];
    let e2 = edges[2 * k + 1];
    &&& e1.from == e2.to
    &&& e1.to == e2.from
    &&& !e1.door.is_exit
    &&& e2.door.is_exit
    &&& e1.door.id == dec_str((2 * k) as nat)
    &&& e2.door.id == dec_str((2 * k + 1) as nat)
}

/// Every door belongs to exactly one connection's pair.
pub open spec fn door_pairs_ok(edges: Seq<EdgeView>) -> bool {
    &&& edges.len() % 2 == 0
    &&& forall|k: int| 0 <= k && 2 * k + 1 < edges.len() ==> #[trigger] pair_at(edges, k)
}

/// The two door edges one connection appends: an entry door from the first
/// room to the second, then an exit door back, with consecutive decimal ids
/// drawn from `ctr`.
pub open spec fn connect_edges(
    rooms: Seq<RoomView>,
    id1: Seq<char>,
    name1: Seq<char>,
    id2: Seq<char>,
    name2: Seq<char>,
    ctr: int,
) -> Seq<EdgeView> {
    let i1 = last_with_id_v(rooms, id1).unwrap();
    let i2 = last_with_id_v(rooms, id2).unwrap();
    seq![
        EdgeView {
            from: i1,
            to: i2,
            door: DoorView { id: dec_str(ctr as nat), name: door_name_v(name2), is_exit: false },
        },
        EdgeView {
            from: i2,
            to: i1,
            door: DoorView {
                id: dec_str((ctr + 1) as nat),
                name: door_name_v(name1),
                is_exit: true,
            },
        },
    ]
}

/// The rooms and door edges a partial compilation has produced so far.
pub ghost struct CompState {
    pub rooms: Seq<RoomView>,
    pub edges: Seq<EdgeView>,
}

/// The abstract compilation state of a plan.
pub open spec fn state_of(plan: FloorPlan) -> CompState {
    CompState { rooms: room_views(plan@.rooms), edges: edge_views(plan@.doors) }
}

/// `new` extends `old` when it keeps every room of `old` in place.
pub open spec fn rooms_extend(old_rooms: Seq<Room>, new_rooms: Seq<Room>) -> bool {
    &&& new_rooms.len() >= old_rooms.len()
    &&& forall|i: int| 0 <= i < old_rooms.len() ==> new_rooms[i] == old_rooms[i]
}

/// Adding one room to the state.
pub open spec fn sp_room(st: CompState, room: RoomView) -> CompState {
    CompState { rooms: st.rooms.push(room), edges: st.edges }
}

/// Connecting two rooms: the next two counter values are the edge count so
/// far, since every connection draws exactly two.
pub open spec fn sp_connect(
    st: CompState,
    id1: Seq<char>,
    name1: Seq<char>,
    id2: Seq<char>,
    name2: Seq<char>,
) -> CompState {
    CompState {
        rooms: st.rooms,
        edges: st.edges + connect_edges(st.rooms, id1, name1, id2, name2, st.edges.len() as int),
    }
}

/// Compiling the volume mounts of one container: one room per mount,
/// connected to the container room.
pub open spec fn sp_mounts(
    st: CompState,
    ns: Seq<char>,
    kind: Seq<char>,
    cname: Seq<char>,
    mounts: Seq<IntegrationResource>,
    outer_id: Seq<char>,
    outer_name: Seq<char>,
) -> CompState
    decreases mounts.len(),
{
    if mounts.len() == 0 {
        st
    } else {
        let room = RoomView {
            id: mount_room_id_v(ns, kind, cname, mounts[0].name@),
            name: mount_room_name_v(mounts[0].name@),
        };
        let st1 = sp_connect(sp_room(st, room), room.id, room.name, outer_id, outer_name);
        sp_mounts(st1, ns, kind, cname, mounts.drop_first(), outer_id, outer_name)
    }
}

/// Compiling the containers of one resource: one room per container,
/// connected to the resource room, then the container's mounts.
pub open spec fn sp_containers(
    st: CompState,
    ns: Seq<char>,
    kind: Seq<char>,
    containers: Seq<IntegrationResource>,
    outer_id: Seq<char>,
    outer_name: Seq<char>,
) -> CompState
    decreases containers.len(),
{
    if containers.len() == 0 {
        st
    } else {
        let c = containers[0];
        let room = RoomView {
            id: container_room_id_v(ns, kind, c.name@),
            name: container_room_name_v(c.name@),
        };
        let st1 = sp_connect(sp_room(st, room), room.id, room.name, outer_id, outer_name);
        let st2 = sp_mounts(st1, ns, kind, c.name@, c.children@, room.id, room.name);
        sp_containers(st2, ns, kind, containers.drop_first(), outer_id, outer_name)
    }
}

/// Compiling one resource: its room, connected to the outer hallway; a
/// connection to its owner's room when that room is already compiled, and
/// silently none when it is not; then its containers.
pub open spec fn sp_resource(
    st: CompState,
    ns: Seq<char>,
    r: IntegrationResource,
    outer_id: Seq<char>,
    outer_name: Seq<char>,
) -> CompState {
    let room = RoomView {
        id: resource_room_id_v(ns, r.kind@, r.name@),
        name: resource_room_name_v(r.kind@, r.name@),
    };
    let st1 = sp_connect(sp_room(st, room), room.id, room.name, outer_id, outer_name);
    let st2 = match r.parent {
        Some(p) => {
            let pid = resource_room_id_v(ns, p.kind@, p.name@);
            if id_present_v(st1.rooms, pid) {
                let proom = st1.rooms[last_with_id_v(st1.rooms, pid).unwrap()];
                sp_connect(st1, room.id, room.name, pid, proom.name)
            } else {
                st1
            }
        },
        None => st1,
    };
    sp_containers(st2, ns, r.kind@, r.children@, room.id, room.name)
}

/// Compiling the resources of one kind hallway, in extraction order.
pub open spec fn sp_resources(
    st: CompState,
    ns: Seq<char>,
    rs: Seq<IntegrationResource>,
    outer_id: Seq<char>,
    outer_name: Seq<char>,
) -> CompState
    decreases rs.len(),
{
    if rs.len() == 0 {
        st
    } else {
        sp_resources(sp_resource(st, ns, rs[0], outer_id, outer_name), ns, rs.drop_first(), outer_id, outer_name)
    }
}

/// Compiling one kind within one namespace: the kind hallway, connected
/// to the namespace hallway as the inner room of the pair, then the
/// kind's resources.
pub open spec fn sp_kind_parts(
    st: CompState,
    ns: Seq<char>,
    kind: Seq<char>,
    resources: Seq<IntegrationResource>,
    outer_id: Seq<char>,
    outer_name: Seq<char>,
) -> CompState {
    let hallway = RoomView { id: hallway_room_id_v(ns, kind), name: hallway_room_name_v(ns, kind) };
    let st1 = sp_connect(sp_room(st, hallway), hallway.id, hallway.name, outer_id, outer_name);
    sp_resources(st1, ns, resources, hallway.id, hallway.name)
}

/// `sp_kind_parts` applied to one kind snapshot.
pub open spec fn sp_kind(
    st: CompState,
    ns: Seq<char>,
    ks: KindSnapshot,
    outer_id: Seq<char>,
    outer_name: Seq<char>,
) -> CompState {
    sp_kind_parts(st, ns, ks.kind@, ks.resources@, outer_id, outer_name)
}

/// Compiling the kinds of one namespace, in query order.
pub open spec fn sp_kinds(
    st: CompState,
    ns: Seq<char>,
    kinds: Seq<KindSnapshot>,
    outer_id: Seq<char>,
    outer_name: Seq<char>,
) -> CompState
    decreases kinds.len(),
{
    if kinds.len() == 0 {
        st
    } else {
        sp_kinds(sp_kind(st, ns, kinds[0], outer_id, outer_name), ns, kinds.drop_first(), outer_id, outer_name)
    }
}

/// Compiling one namespace: its hallway, connected to the lobby as the
/// inner room of the pair, then its kinds.
pub open spec fn sp_namespace_parts(
    st: CompState,
    name: Seq<char>,
    kinds: Seq<KindSnapshot>,
) -> CompState {
    let room = RoomView { id: name, name: ns_room_name_v(name) };
    let st1 = sp_connect(sp_room(st, room), room.id, room.name, "cluster"@, "Cluster Lobby"@);
    sp_kinds(st1, name, kinds, room.id, room.name)
}

/// `sp_namespace_parts` applied to one namespace snapshot.
pub open spec fn sp_namespace(st: CompState, nss: NamespaceSnapshot) -> CompState {
    sp_namespace_parts(st, nss.name@, nss.kinds@)
}

/// Compiling a sequence of namespaces, in snapshot order.
pub open spec fn sp_namespaces(st: CompState, nss: Seq<NamespaceSnapshot>) -> CompState
    decreases nss.len(),
{
    if nss.len() == 0 {
        st
    } else {
        sp_namespaces(sp_namespace(st, nss[0]), nss.drop_first())
    }
}

/// The whole compilation: the lobby room, then every namespace.
pub open spec fn sp_topology(s: TopologySnapshot) -> CompState {
    let st0 = CompState {
        rooms: seq![RoomView { id: "cluster"@, name: "Cluster Lobby"@ }],
        edges: Seq::<EdgeView>::empty(),
    };
    sp_namespaces(st0, s.namespaces@)
}

/// An upper bound on the rooms and connections one container contributes.
pub open spec fn units_containers(cs: Seq<IntegrationResource>) -> int
    decreases cs.len(),
{
    if cs.len() == 0 {
        0
    } else {
        1 + cs[0].children@.len() + units_containers(cs.drop_first())
    }
}

/// An upper bound on the rooms and connections one resource contributes:
/// its room, a possible owner connection, and its containers and mounts.
pub open spec fn units_resources(rs: Seq<IntegrationResource>) -> int
    decreases rs.len(),
{
    if rs.len() == 0 {
        0
    } else {
        2 + units_containers(rs[0].children@) + units_resources(rs.drop_first())
    }
}

/// An upper bound on the rooms and connections one kind contributes.
pub open spec fn units_kinds(ks: Seq<KindSnapshot>) -> int
    decreases ks.len(),
{
    if ks.len() == 0 {
        0
    } else {
        1 + units_resources(ks[0].resources@) + units_kinds(ks.drop_first())
    }
}

/// An upper bound on the rooms and connections one namespace contributes.
pub open spec fn units_namespaces(nss: Seq<NamespaceSnapshot>) -> int
    decreases nss.len(),
{
    if nss.len() == 0 {
        0
    } else {
        1 + units_kinds(nss[0].kinds@) + units_namespaces(nss.drop_first())
    }
}

/// An upper bound on the rooms and connections a whole snapshot compiles to.
pub open spec fn units_topology(s: TopologySnapshot) -> int {
    1 + units_namespaces(s.namespaces@)
}

/// The units of a container list, counted with a cap: `None` when the
/// count passes the largest snapshot the compiler takes.
fn units_of_containers(cs: &Vec<IntegrationResource>) -> (r: Option<usize>)
    ensures
        match r {
            Some(u) => u as int == units_containers(cs@) && u <= 0x3FFF_FFFEusize,
            None => units_containers(cs@) > 0x3FFF_FFFEusize as int,
        },
{
    let n = cs.len();
    proof {
        assert(cs@.subrange(0, n as int) =~= cs@);
    }
    let mut acc: usize = 0;
    let mut i: usize = 0;
    while i < n
        invariant
            n == cs@.len(),
            0 <= i <= n,
            acc <= 0x3FFF_FFFEusize,
            units_containers(cs@) == acc + units_containers(cs@.subrange(i as int, n as int)),
        decreases n - i,
    {
        let ghost sub = cs@.subrange(i as int, n as int);
        proof {
            assert(sub[0] == cs@[i as int]);
            assert(sub.drop_first() =~= cs@.subrange(i + 1, n as int));
            lemma_units_containers_nonneg(sub.drop_first());
        }
        let len = cs[i].children.len();
        if len > 0x3FFF_FFFE {
            return None;
        }
        let item = 1 + len;
        if acc + item > 0x3FFF_FFFE {
            return None;
        }
        acc = acc + item;
        i += 1;
    }
    proof {
        assert(cs@.subrange(n as int, n as int) =~= Seq::<IntegrationResource>::empty());
    }
    Some(acc)
}

/// The units of a resource list, counted with the same cap.
fn units_of_resources(rs: &Vec<IntegrationResource>) -> (r: Option<usize>)
    ensures
        match r {
            Some(u) => u as int == units_resources(rs@) && u <= 0x3FFF_FFFEusize,
            None => units_resources(rs@) > 0x3FFF_FFFEusize as int,
        },
{
    let n = rs.len();
    proof {
        assert(rs@.subrange(0, n as int) =~= rs@);
    }
    let mut acc: usize = 0;
    let mut i: usize = 0;
    while i < n
        invariant
            n == rs@.len(),
            0 <= i <= n,
            acc <= 0x3FFF_FFFEusize,
            units_resources(rs@) == acc + units_resources(rs@.subrange(i as int, n as int)),
        decreases n - i,
    {
        let ghost sub = rs@.subrange(i as int, n as int);
        proof {
            assert(sub[0] == rs@[i as int]);
            assert(sub.drop_first() =~= rs@.subrange(i + 1, n as int));
            lemma_units_resources_nonneg(sub.drop_first());
            lemma_units_containers_nonneg(rs@[i as int].children@);
        }
        let uc = match units_of_containers(&rs[i].children) {
            Some(uc) => uc,
            None => {
                return None;
            },
        };
        let item = 2 + uc;
        if acc + item > 0x3FFF_FFFE {
            return None;
        }
        acc = acc + item;
        i += 1;
    }
    proof {
        assert(rs@.subrange(n as int, n as int) =~= Seq::<IntegrationResource>::empty());
    }
    Some(acc)
}

/// The units of a kind list, counted with the same cap.
fn units_of_kinds(ks: &Vec<KindSnapshot>) -> (r: Option<usize>)
    ensures
        match r {
            Some(u) => u as int == units_kinds(ks@) && u <= 0x3FFF_FFFEusize,
            None => units_kinds(ks@) > 0x3FFF_FFFEusize as int,
        },
{
    let n = ks.len();
    proof {
        assert(ks@.subrange(0, n as int) =~= ks@);
    }
    let mut acc: usize = 0;
    let mut i: usize = 0;
    while i < n
        invariant
            n == ks@.len(),
            0 <= i <= n,
            acc <= 0x3FFF_FFFEusize,
            units_kinds(ks@) == acc + units_kinds(ks@.subrange(i as int, n as int)),
        decreases n - i,
    {
        let ghost sub = ks@.subrange(i as int, n as int);
        proof {
            assert(sub[0] == ks@[i as int]);
            assert(sub.drop_first() =~= ks@.subrange(i + 1, n as int));
            lemma_units_kinds_nonneg(sub.drop_first());
            lemma_units_resources_nonneg(ks@[i as int].resources@);
        }
        let ur = match units_of_resources(&ks[i].resources) {
            Some(ur) => ur,
            None => {
                return None;
            },
        };
        let item = 1 + ur;
        if acc + item > 0x3FFF_FFFE {
            return None;
        }
        acc = acc + item;
        i += 1;
    }
    proof {
        assert(ks@.subrange(n as int, n as int) =~= Seq::<KindSnapshot>::empty());
    }
    Some(acc)
}

/// The units of a namespace list, counted with the same cap.
fn units_of_namespaces(nss: &Vec<NamespaceSnapshot>) -> (r: Option<usize>)
    ensures
        match r {
            Some(u) => u as int == units_namespaces(nss@) && u <= 0x3FFF_FFFEusize,
            None => units_namespaces(nss@) > 0x3FFF_FFFEusize as int,
        },
{
    let n = nss.len();
    proof {
        assert(nss@.subrange(0, n as int) =~= nss@);
    }
    let mut acc: usize = 0;
    let mut i: usize = 0;
    while i < n
        invariant
            n == nss@.len(),
            0 <= i <= n,
            acc <= 0x3FFF_FFFEusize,
            units_namespaces(nss@) == acc + units_namespaces(nss@.subrange(i as int, n as int)),
        decreases n - i,
    {
        let ghost sub = nss@.subrange(i as int, n as int);
        proof {
            assert(sub[0] == nss@[i as int]);
            assert(sub.drop_first() =~= nss@.subrange(i + 1, n as int));
            lemma_units_namespaces_nonneg(sub.drop_first());
            lemma_units_kinds_nonneg(nss@[i as int].kinds@);
        }
        let uk = match units_of_kinds(&nss[i].kinds) {
            Some(uk) => uk,
            None => {
                return None;
            },
        };
        let item = 1 + uk;
        if acc + item > 0x3FFF_FFFE {
            return None;
        }
        acc = acc + item;
        i += 1;
    }
    proof {
        assert(nss@.subrange(n as int, n as int) =~= Seq::<NamespaceSnapshot>::empty());
    }
    Some(acc)
}

/// Appending one well-formed pair keeps the pairing of all doors.
proof fn lemma_pairs_append(edges: Seq<EdgeView>, e1: EdgeView, e2: EdgeView)
    requires
        door_pairs_ok(edges),
        e1.to == e2.from,
        e1.from == e2.to,
        !e1.door.is_exit,
        e2.door.is_exit,
        e1.door.id == dec_str(edges.len() as nat),
        e2.door.id == dec_str((edges.len() + 1) as nat),
    ensures
        door_pairs_ok(edges + seq![e1, e2]),
{
    let n = edges + seq![e1, e2];
    assert forall|k: int| 0 <= k && 2 * k + 1 < n.len() implies #[trigger] pair_at(n, k) by {
        if 2 * k + 1 < edges.len() {
            assert(pair_at(edges, k));
            assert(n[2 * k] == edges[2 * k]);
            assert(n[2 * k + 1] == edges[2 * k + 1]);
        } else {
            assert(2 * k == edges.len());
            assert(n[2 * k] == e1);
            assert(n[2 * k + 1] == e2);
        }
    }
}

proof fn lemma_pairs_connect(
    st: CompState,
    id1: Seq<char>,
    name1: Seq<char>,
    id2: Seq<char>,
    name2: Seq<char>,
)
    requires
        door_pairs_ok(st.edges),
    ensures
        door_pairs_ok(sp_connect(st, id1, name1, id2, name2).edges),
{
    let es = connect_edges(st.rooms, id1, name1, id2, name2, st.edges.len() as int);
    assert(es =~= seq![es[0], es[1]]);
    lemma_pairs_append(st.edges, es[0], es[1]);
}

proof fn lemma_pairs_mounts(
    st: CompState,
    ns: Seq<char>,
    kind: Seq<char>,
    cname: Seq<char>,
    mounts: Seq<IntegrationResource>,
    outer_id: Seq<char>,
    outer_name: Seq<char>,
)
    requires
        door_pairs_ok(st.edges),
    ensures
        door_pairs_ok(sp_mounts(st, ns, kind, cname, mounts, outer_id, outer_name).edges),
    decreases mounts.len(),
{
    if mounts.len() > 0 {
        let room = RoomView {
            id: mount_room_id_v(ns, kind, cname, mounts[0].name@),
            name: mount_room_name_v(mounts[0].name@),
        };
        lemma_pairs_connect(sp_room(st, room), room.id, room.name, outer_id, outer_name);
        lemma_pairs_mounts(
            sp_connect(sp_room(st, room), room.id, room.name, outer_id, outer_name),
            ns,
            kind,
            cname,
            mounts.drop_first(),
            outer_id,
            outer_name,
        );
    }
}

proof fn lemma_pairs_containers(
    st: CompState,
    ns: Seq<char>,
    kind: Seq<char>,
    containers: Seq<IntegrationResource>,
    outer_id: Seq<char>,
    outer_name: Seq<char>,
)
    requires
        door_pairs_ok(st.edges),
    ensures
        door_pairs_ok(sp_containers(st, ns, kind, containers, outer_id, outer_name).edges),
    decreases containers.len(),
{
    if containers.len() > 0 {
        let c = containers[0];
        let room = RoomView {
            id: container_room_id_v(ns, kind, c.name@),
            name: container_room_name_v(c.name@),
        };
        let st1 = sp_connect(sp_room(st, room), room.id, room.name, outer_id, outer_name);
        lemma_pairs_connect(sp_room(st, room), room.id, room.name, outer_id, outer_name);
        lemma_pairs_mounts(st1, ns, kind, c.name@, c.children@, room.id, room.name);
        lemma_pairs_containers(
            sp_mounts(st1, ns, kind, c.name@, c.children@, room.id, room.name),
            ns,
            kind,
            containers.drop_first(),
            outer_id,
            outer_name,
        );
    }
}

proof fn lemma_pairs_resource(
    st: CompState,
    ns: Seq<char>,
    r: IntegrationResource,
    outer_id: Seq<char>,
    outer_name: Seq<char>,
)
    requires
        door_pairs_ok(st.edges),
    ensures
        door_pairs_ok(sp_resource(st, ns, r, outer_id, outer_name).edges),
{
    let room = RoomView {
        id: resource_room_id_v(ns, r.kind@, r.name@),
        name: resource_room_name_v(r.kind@, r.name@),
    };
    let st1 = sp_connect(sp_room(st, room), room.id, room.name, outer_id, outer_name);
    lemma_pairs_connect(sp_room(st, room), room.id, room.name, outer_id, outer_name);
    let st2 = match r.parent {
        Some(p) => {
            let pid = resource_room_id_v(ns, p.kind@, p.name@);
            if id_present_v(st1.rooms, pid) {
                let proom = st1.rooms[last_with_id_v(st1.rooms, pid).unwrap()];
                lemma_pairs_connect(st1, room.id, room.name, pid, proom.name);
                sp_connect(st1, room.id, room.name, pid, proom.name)
            } else {
                st1
            }
        },
        None => st1,
    };
    lemma_pairs_containers(st2, ns, r.kind@, r.children@, room.id, room.name);
}

proof fn lemma_pairs_resources(
    st: CompState,
    ns: Seq<char>,
    rs: Seq<IntegrationResource>,
    outer_id: Seq<char>,
    outer_name: Seq<char>,
)
    requires
        door_pairs_ok(st.edges),
    ensures
        door_pairs_ok(sp_resources(st, ns, rs, outer_id, outer_name).edges),
    decreases rs.len(),
{
    if rs.len() > 0 {
        lemma_pairs_resource(st, ns, rs[0], outer_id, outer_name);
        lemma_pairs_resources(
            sp_resource(st, ns, rs[0], outer_id, outer_name),
            ns,
            rs.drop_first(),
            outer_id,
            outer_name,
        );
    }
}

proof fn lemma_pairs_kinds(
    st: CompState,
    ns: Seq<char>,
    kinds: Seq<KindSnapshot>,
    outer_id: Seq<char>,
    outer_name: Seq<char>,
)
    requires
        door_pairs_ok(st.edges),
    ensures
        door_pairs_ok(sp_kinds(st, ns, kinds, outer_id, outer_name).edges),
    decreases kinds.len(),
{
    if kinds.len() > 0 {
        let ks = kinds[0];
        let hallway = RoomView {
            id: hallway_room_id_v(ns, ks.kind@),
            name: hallway_room_name_v(ns, ks.kind@),
        };
        let st1 = sp_connect(sp_room(st, hallway), hallway.id, hallway.name, outer_id, outer_name);
        lemma_pairs_connect(sp_room(st, hallway), hallway.id, hallway.name, outer_id, outer_name);
        lemma_pairs_resources(st1, ns, ks.resources@, hallway.id, hallway.name);
        lemma_pairs_kinds(
            sp_resources(st1, ns, ks.resources@, hallway.id, hallway.name),
            ns,
            kinds.drop_first(),
            outer_id,
            outer_name,
        );
    }
}

proof fn lemma_pairs_namespaces(st: CompState, nss: Seq<NamespaceSnapshot>)
    requires
        door_pairs_ok(st.edges),
    ensures
        door_pairs_ok(sp_namespaces(st, nss).edges),
    decreases nss.len(),
{
    if nss.len() > 0 {
        let room = RoomView { id: nss[0].name@, name: ns_room_name_v(nss[0].name@) };
        let st1 = sp_connect(
            sp_room(st, room),
            room.id,
            room.name,
            "cluster"@,
            "Cluster Lobby"@,
        );
        lemma_pairs_connect(sp_room(st, room), room.id, room.name, "cluster"@, "Cluster Lobby"@);
        lemma_pairs_kinds(st1, nss[0].name@, nss[0].kinds@, room.id, room.name);
        lemma_pairs_namespaces(
            sp_kinds(st1, nss[0].name@, nss[0].kinds@, room.id, room.name),
            nss.drop_first(),
        );
    }
}

/// For any two rooms the compiler connects, the connection is exactly one
/// pair of doors: one in each direction, exactly one of the two marked as
/// the exit, their ids consecutive decimals.  Every compiled door belongs
/// to exactly one such pair.
pub proof fn lemma_compiled_doors_paired(s: TopologySnapshot)
    ensures
        door_pairs_ok(sp_topology(s).edges),
{
    let st0 = CompState {
        rooms: seq![RoomView { id: "cluster"@, name: "Cluster Lobby"@ }],
        edges: Seq::<EdgeView>::empty(),
    };
    lemma_pairs_namespaces(st0, s.namespaces@);
}

/// Under the pairing of compiled doors, door `k` carries the decimal id
/// of its own position.
pub proof fn lemma_paired_ids_indexed(edges: Seq<EdgeView>)
    requires
        door_pairs_ok(edges),
    ensures
        forall|k: int| 0 <= k < edges.len() ==> (#[trigger] edges[k]).door.id == dec_str(k as nat),
{
    assert forall|k: int| 0 <= k < edges.len() implies (#[trigger] edges[k]).door.id == dec_str(
        k as nat,
    ) by {
        vstd::arithmetic::div_mod::lemma_fundamental_div_mod(k, 2);
        if k % 2 == 0 {
            assert(pair_at(edges, k / 2));
        } else {
            assert(pair_at(edges, (k - 1) / 2));
            assert(2 * ((k - 1) / 2) + 1 == k);
        }
    }
}

/// Filtering keeps door ids pairwise distinct.
proof fn lemma_filter_distinct_ids(s: Seq<(usize, usize, Door)>, pred: spec_fn((usize, usize, Door)) -> bool)
    requires
        forall|i: int, j: int| 0 <= i < j < s.len() ==> s[i].2.id@ != s[j].2.id@,
    ensures
        forall|i: int, j: int|
            0 <= i < j < s.filter(pred).len() ==> (#[trigger] s.filter(pred)[i]).2.id@ != (
            #[trigger] s.filter(pred)[j]).2.id@,
    decreases s.len(),
{
    reveal(Seq::filter);
    if s.len() > 0 {
        let rest = s.drop_last();
        lemma_filter_distinct_ids(rest, pred);
        let f = s.filter(pred);
        let fd = rest.filter(pred);
        assert forall|i: int, j: int| 0 <= i < j < f.len() implies (#[trigger] f[i]).2.id@ != (
        #[trigger] f[j]).2.id@ by {
            if pred(s.last()) && j == f.len() - 1 {
                assert(f[j] == s.last());
                assert(f[i] == fd[i]);
                crate::floorplan::lemma_filter_element_of(rest, pred, i);
                let w = choose|w: int| 0 <= w < rest.len() && rest[w] == fd[i];
                assert(s[w] == fd[i]);
                assert(s[w].2.id@ != s[s.len() - 1].2.id@);
            } else {
                assert(f[i] == fd[i]);
                assert(f[j] == fd[j]);
            }
        }
    }
}

/// A node's outgoing door ids are pairwise distinct when the whole plan's
/// door ids are.
proof fn lemma_outgoing_ids_distinct(doors: Seq<(usize, usize, Door)>, ix: int)
    requires
        forall|i: int, j: int| 0 <= i < j < doors.len() ==> doors[i].2.id@ != doors[j].2.id@,
    ensures
        forall|k1: int, k2: int|
            0 <= k1 < k2 < crate::graph_store::outgoing_pairs(doors, ix).len() ==> (
            #[trigger] crate::graph_store::outgoing_pairs(doors, ix)[k1]).0.id@ != (
            #[trigger] crate::graph_store::outgoing_pairs(doors, ix)[k2]).0.id@,
{
    let pred = crate::graph_store::leaves_node(ix);
    lemma_filter_distinct_ids(doors, pred);
    let filtered = doors.filter(pred);
    let out = crate::graph_store::outgoing_pairs(doors, ix);
    assert forall|k1: int, k2: int| 0 <= k1 < k2 < out.len() implies (#[trigger] out[k1]).0.id@
        != (#[trigger] out[k2]).0.id@ by {
        assert(out[k1] == crate::graph_store::weight_and_target()(filtered.reverse()[k1]));
        assert(out[k2] == crate::graph_store::weight_and_target()(filtered.reverse()[k2]));
        assert(filtered.reverse()[k1] == filtered[filtered.len() - 1 - k1]);
        assert(filtered.reverse()[k2] == filtered[filtered.len() - 1 - k2]);
    }
}

/// In a compiled plan every room's outgoing door ids are pairwise
/// distinct (they are the decimals of distinct door positions), so each
/// (door, room) entry that `get_doors_and_connected_rooms` promises is
/// reachable through exactly its own door id, as `get_connected_room`
/// looks it up.
pub proof fn lemma_compiled_entry_reachable(
    plan: &FloorPlan,
    s: TopologySnapshot,
    room_id: Seq<char>,
    k: int,
)
    requires
        plan.wf(),
        edge_views(plan@.doors) == sp_topology(s).edges,
        id_present(plan@.rooms, room_id),
        0 <= k < crate::floorplan::outgoing_of(plan@, room_id).len(),
    ensures
        crate::floorplan::find_door(
            crate::floorplan::outgoing_of(plan@, room_id),
            crate::floorplan::outgoing_of(plan@, room_id)[k].0.id@,
        ) == Some(crate::floorplan::outgoing_of(plan@, room_id)[k]),
{
    lemma_compiled_doors_paired(s);
    lemma_paired_ids_indexed(edge_views(plan@.doors));
    assert forall|i: int, j: int| 0 <= i < j < plan@.doors.len() implies plan@.doors[i].2.id@
        != plan@.doors[j].2.id@ by {
        assert(edge_views(plan@.doors)[i].door.id == plan@.doors[i].2.id@);
        assert(edge_views(plan@.doors)[j].door.id == plan@.doors[j].2.id@);
        crate::text::lemma_dec_str_injective(i as nat, j as nat);
    }
    lemma_outgoing_ids_distinct(
        plan@.doors,
        crate::floorplan::last_with_id(plan@.rooms, room_id).unwrap(),
    );
    plan.lemma_entry_reachable(room_id, k);
}

/// Compiling one snapshot twice yields floorplans with the same room id
/// set and the same start room id: structurally equal plans, so a repeated
/// poll of an unchanged topology publishes nothing new.
pub proof fn lemma_recompile_structurally_equal(s: TopologySnapshot, p1: FloorPlan, p2: FloorPlan)
    requires
        p1.wf(),
        p2.wf(),
        room_views(p1@.rooms) == sp_topology(s).rooms,
        room_views(p2@.rooms) == sp_topology(s).rooms,
        p1@.start == Some("cluster"@),
        p2@.start == Some("cluster"@),
    ensures
        crate::floorplan::room_id_set(p1@.rooms) == crate::floorplan::room_id_set(p2@.rooms),
        p1@.start == p2@.start,
        p1.eq_spec(&p2),
{
    assert forall|id: Seq<char>|
        id_present(p1@.rooms, id) <==> id_present(p2@.rooms, id) by {
        lemma_last_with_id_views(p1@.rooms, id);
        lemma_last_with_id_views(p2@.rooms, id);
    }
    assert(crate::floorplan::room_id_set(p1@.rooms) =~= crate::floorplan::room_id_set(p2@.rooms));
    p1.lemma_eq_is_structural(&p2);
}

pub proof fn lemma_units_containers_nonneg(cs: Seq<IntegrationResource>)
    ensures
        units_containers(cs) >= 0,
    decreases cs.len(),
{
    if cs.len() > 0 {
        lemma_units_containers_nonneg(cs.drop_first());
    }
}

pub proof fn lemma_units_resources_nonneg(rs: Seq<IntegrationResource>)
    ensures
        units_resources(rs) >= 0,
    decreases rs.len(),
{
    if rs.len() > 0 {
        lemma_units_containers_nonneg(rs[0].children@);
        lemma_units_resources_nonneg(rs.drop_first());
    }
}

pub proof fn lemma_units_kinds_nonneg(ks: Seq<KindSnapshot>)
    ensures
        units_kinds(ks) >= 0,
    decreases ks.len(),
{
    if ks.len() > 0 {
        lemma_units_resources_nonneg(ks[0].resources@);
        lemma_units_kinds_nonneg(ks.drop_first());
    }
}

pub proof fn lemma_units_namespaces_nonneg(nss: Seq<NamespaceSnapshot>)
    ensures
        units_namespaces(nss) >= 0,
    decreases nss.len(),
{
    if nss.len() > 0 {
        lemma_units_kinds_nonneg(nss[0].kinds@);
        lemma_units_namespaces_nonneg(nss.drop_first());
    }
}

/// Connects two rooms already in the plan with one pair of doors: an entry
/// door from the first to the second, and an exit door back.  Two fresh
/// decimal door ids are drawn from the shared counter.  When either id does
/// not resolve the plan is unchanged, one counter value is already spent,
/// and the missing id comes back in `RoomNotFound`.
pub fn connect_rooms_with_doors(
    plan: &mut FloorPlan,
    room1: &Room,
    room2: &Room,
    door_id: &mut usize,
) -> (r: FloorPlanResult<()>)
    requires
        old(plan).wf(),
        *old(door_id) + 2 <= usize::MAX,
        old(plan)@.doors.len() + 2 < 0xFFFF_FFFFusize,
    ensures
        final(plan).wf(),
        final(plan)@.rooms == old(plan)@.rooms,
        final(plan)@.start == old(plan)@.start,
        match r {
            Ok(()) => {
                &&& id_present(old(plan)@.rooms, room1.id@)
                &&& id_present(old(plan)@.rooms, room2.id@)
                &&& *final(door_id) == *old(door_id) + 2
                &&& final(plan)@.doors.len() == old(plan)@.doors.len() + 2
                &&& edge_views(final(plan)@.doors) == edge_views(old(plan)@.doors)
                    + connect_edges(
                    room_views(old(plan)@.rooms),
                    room1.id@,
                    room1.name@,
                    room2.id@,
                    room2.name@,
                    *old(door_id) as int,
                )
            },
            Err(e) => {
                &&& !(id_present(old(plan)@.rooms, room1.id@) && id_present(
                    old(plan)@.rooms,
                    room2.id@,
                ))
                &&& *final(door_id) == *old(door_id) + 1
                &&& final(plan)@.doors == old(plan)@.doors
                &&& (e matches FloorPlanError::RoomNotFound(s) && s@ == if !id_present(
                    old(plan)@.rooms,
                    room1.id@,
                ) {
                    room1.id@
                } else {
                    room2.id@
                })
            },
        },
{
    let mut name1 = "Door to ".to_owned();
    name1.append(room2.name.as_str());
    let door1 = Door { id: crate::text::usize_to_string(*door_id), name: name1, is_exit: false };
    *door_id += 1;
    let i1 = match plan.get_room_idx_by_id(room1.id.as_str()) {
        Ok(ix) => ix,
        Err(e) => {
            proof {
                lemma_last_with_id_present(plan@.rooms, room1.id@);
            }
            return Err(e);
        },
    };
    let i2 = match plan.get_room_idx_by_id(room2.id.as_str()) {
        Ok(ix) => ix,
        Err(e) => {
            proof {
                lemma_last_with_id_present(plan@.rooms, room1.id@);
                lemma_last_with_id_present(plan@.rooms, room2.id@);
            }
            return Err(e);
        },
    };
    proof {
        lemma_last_with_id_present(plan@.rooms, room1.id@);
        lemma_last_with_id_present(plan@.rooms, room2.id@);
    }
    plan.add_door(i1, i2, door1);

    let mut name2 = "Door to ".to_owned();
    name2.append(room1.name.as_str());
    let door2 = Door { id: crate::text::usize_to_string(*door_id), name: name2, is_exit: true };
    *door_id += 1;
    let j2 = match plan.get_room_idx_by_id(room2.id.as_str()) {
        Ok(ix) => ix,
        Err(_) => {
            proof {
                assert(false);
            }
            0
        },
    };
    let j1 = match plan.get_room_idx_by_id(room1.id.as_str()) {
        Ok(ix) => ix,
        Err(_) => {
            proof {
                assert(false);
            }
            0
        },
    };
    plan.add_door(j2, j1, door2);
    proof {
        lemma_last_with_id_views(old(plan)@.rooms, room1.id@);
        lemma_last_with_id_views(old(plan)@.rooms, room2.id@);
        assert(edge_views(plan@.doors) =~= edge_views(old(plan)@.doors) + connect_edges(
            room_views(old(plan)@.rooms),
            room1.id@,
            room1.name@,
            room2.id@,
            room2.name@,
            *old(door_id) as int,
        ));
    }
    Ok(())
}

/// One room per volume mount of the container, each connected to the
/// container room.  Like every compilation helper, this expects the
/// shared door-id counter to equal the door count.
pub fn add_volume_mount_rooms(
    plan: &mut FloorPlan,
    namespace: &str,
    r: &IntegrationResource,
    container: &IntegrationResource,
    container_room: &Room,
    door_id: &mut usize,
) -> (res: FloorPlanResult<()>)
    requires
        old(plan).wf(),
        *old(door_id) == old(plan)@.doors.len(),
        id_present(old(plan)@.rooms, container_room.id@),
        old(plan)@.rooms.len() + container.children@.len() <= 0x3FFF_FFFFusize,
        old(plan)@.doors.len() + 2 * container.children@.len() <= 0x7FFF_FFFEusize,
    ensures
        final(plan).wf(),
        res is Ok,
        state_of(*final(plan)) == sp_mounts(
            state_of(*old(plan)),
            namespace@,
            r.kind@,
            container.name@,
            container.children@,
            container_room.id@,
            container_room.name@,
        ),
        *final(door_id) == final(plan)@.doors.len(),
        rooms_extend(old(plan)@.rooms, final(plan)@.rooms),
        final(plan)@.rooms.len() <= old(plan)@.rooms.len() + container.children@.len(),
        final(plan)@.doors.len() <= old(plan)@.doors.len() + 2 * container.children@.len(),
        old(plan)@.start is Some ==> final(plan)@.start == old(plan)@.start,
{
    let m = container.children.len();
    proof {
        assert(container.children@.subrange(0, m as int) =~= container.children@);
    }
    let mut i: usize = 0;
    while i < m
        invariant
            plan.wf(),
            m == container.children@.len(),
            0 <= i <= m,
            *door_id == plan@.doors.len(),
            id_present(plan@.rooms, container_room.id@),
            plan@.rooms.len() + (m - i) <= 0x3FFF_FFFFusize,
            plan@.doors.len() + 2 * (m - i) <= 0x7FFF_FFFEusize,
            sp_mounts(
                state_of(*plan),
                namespace@,
                r.kind@,
                container.name@,
                container.children@.subrange(i as int, m as int),
                container_room.id@,
                container_room.name@,
            ) == sp_mounts(
                state_of(*old(plan)),
                namespace@,
                r.kind@,
                container.name@,
                container.children@,
                container_room.id@,
                container_room.name@,
            ),
            rooms_extend(old(plan)@.rooms, plan@.rooms),
            plan@.rooms.len() <= old(plan)@.rooms.len() + i,
            plan@.doors.len() <= old(plan)@.doors.len() + 2 * i,
            old(plan)@.start is Some ==> plan@.start == old(plan)@.start,
        decreases m - i,
    {
        let ghost pre = state_of(*plan);
        let ghost pre_rooms = plan@.rooms;
        let volume_mount_room = create_volume_mount_room(namespace, r, container, &container.children[i]);
        let ghost roomv = volume_mount_room@;
        plan.add_room(volume_mount_room.clone());
        proof {
            assert(room_views(plan@.rooms) =~= room_views(pre_rooms).push(roomv));
            assert(plan@.rooms[plan@.rooms.len() - 1].id@ == volume_mount_room.id@);
            assert(id_present(plan@.rooms, volume_mount_room.id@));
            let w = choose|w: int|
                0 <= w < pre_rooms.len() && pre_rooms[w].id@ == container_room.id@;
            assert(plan@.rooms[w] == pre_rooms[w]);
            assert(id_present(plan@.rooms, container_room.id@));
            assert(state_of(*plan) == sp_room(pre, roomv));
        }
        match connect_rooms_with_doors(plan, &volume_mount_room, container_room, door_id) {
            Ok(()) => {},
            Err(e) => {
                proof {
                    assert(false);
                }
                return Err(e);
            },
        }
        proof {
            assert(state_of(*plan) == sp_connect(
                sp_room(pre, roomv),
                roomv.id,
                roomv.name,
                container_room.id@,
                container_room.name@,
            ));
            let sub = container.children@.subrange(i as int, m as int);
            assert(sub[0] == container.children@[i as int]);
            assert(sub.drop_first() =~= container.children@.subrange(i + 1, m as int));
        }
        i += 1;
    }
    proof {
        assert(container.children@.subrange(m as int, m as int) =~= Seq::<
            IntegrationResource,
        >::empty());
    }
    Ok(())
}

/// One room per container of the resource, each connected to the resource
/// room, followed by the container's volume mount rooms.  Like every
/// compilation helper, this expects the shared door-id counter to equal
/// the door count.
pub fn add_container_rooms(
    plan: &mut FloorPlan,
    namespace: &str,
    r: &IntegrationResource,
    room: &Room,
    door_id: &mut usize,
) -> (res: FloorPlanResult<()>)
    requires
        old(plan).wf(),
        *old(door_id) == old(plan)@.doors.len(),
        id_present(old(plan)@.rooms, room.id@),
        old(plan)@.rooms.len() + units_containers(r.children@) <= 0x3FFF_FFFFusize,
        old(plan)@.doors.len() + 2 * units_containers(r.children@) <= 0x7FFF_FFFEusize,
    ensures
        final(plan).wf(),
        res is Ok,
        state_of(*final(plan)) == sp_containers(
            state_of(*old(plan)),
            namespace@,
            r.kind@,
            r.children@,
            room.id@,
            room.name@,
        ),
        *final(door_id) == final(plan)@.doors.len(),
        rooms_extend(old(plan)@.rooms, final(plan)@.rooms),
        final(plan)@.rooms.len() <= old(plan)@.rooms.len() + units_containers(r.children@),
        final(plan)@.doors.len() <= old(plan)@.doors.len() + 2 * units_containers(r.children@),
        old(plan)@.start is Some ==> final(plan)@.start == old(plan)@.start,
{
    let m = r.children.len();
    proof {
        assert(r.children@.subrange(0, m as int) =~= r.children@);
    }
    let mut i: usize = 0;
    while i < m
        invariant
            plan.wf(),
            m == r.children@.len(),
            0 <= i <= m,
            *door_id == plan@.doors.len(),
            id_present(plan@.rooms, room.id@),
            plan@.rooms.len() + units_containers(r.children@.subrange(i as int, m as int))
                <= 0x3FFF_FFFFusize,
            plan@.doors.len() + 2 * units_containers(r.children@.subrange(i as int, m as int))
                <= 0x7FFF_FFFEusize,
            sp_containers(
                state_of(*plan),
                namespace@,
                r.kind@,
                r.children@.subrange(i as int, m as int),
                room.id@,
                room.name@,
            ) == sp_containers(
                state_of(*old(plan)),
                namespace@,
                r.kind@,
                r.children@,
                room.id@,
                room.name@,
            ),
            rooms_extend(old(plan)@.rooms, plan@.rooms),
            plan@.rooms.len() + units_containers(r.children@.subrange(i as int, m as int))
                <= old(plan)@.rooms.len() + units_containers(r.children@),
            plan@.doors.len() + 2 * units_containers(r.children@.subrange(i as int, m as int))
                <= old(plan)@.doors.len() + 2 * units_containers(r.children@),
            old(plan)@.start is Some ==> plan@.start == old(plan)@.start,
        decreases m - i,
    {
        let ghost sub = r.children@.subrange(i as int, m as int);
        proof {
            assert(sub[0] == r.children@[i as int]);
            assert(sub.drop_first() =~= r.children@.subrange(i + 1, m as int));
            lemma_units_containers_nonneg(sub.drop_first());
        }
        let ghost pre = state_of(*plan);
        let ghost pre_rooms = plan@.rooms;
        let container = &r.children[i];
        let container_room = create_container_room(namespace, r, container);
        let ghost roomv = container_room@;
        plan.add_room(container_room.clone());
        proof {
            assert(room_views(plan@.rooms) =~= room_views(pre_rooms).push(roomv));
            assert(plan@.rooms[plan@.rooms.len() - 1].id@ == container_room.id@);
            assert(id_present(plan@.rooms, container_room.id@));
            let w = choose|w: int| 0 <= w < pre_rooms.len() && pre_rooms[w].id@ == room.id@;
            assert(plan@.rooms[w] == pre_rooms[w]);
            assert(id_present(plan@.rooms, room.id@));
            assert(state_of(*plan) == sp_room(pre, roomv));
        }
        match connect_rooms_with_doors(plan, &container_room, room, door_id) {
            Ok(()) => {},
            Err(e) => {
                proof {
                    assert(false);
                }
                return Err(e);
            },
        }
        proof {
            assert(state_of(*plan) == sp_connect(
                sp_room(pre, roomv),
                roomv.id,
                roomv.name,
                room.id@,
                room.name@,
            ));
        }
        match add_volume_mount_rooms(plan, namespace, r, container, &container_room, door_id) {
            Ok(()) => {},
            Err(e) => {
                proof {
                    assert(false);
                }
                return Err(e);
            },
        }
        i += 1;
    }
    proof {
        assert(r.children@.subrange(m as int, m as int) =~= Seq::<IntegrationResource>::empty());
    }
    Ok(())
}

/// Connects a resource room to the room of the resource's declared owner.
/// When the owner's room is not compiled yet, or never will be, nothing is
/// connected and the pass goes on: a missing owner is never an error.
/// Like every compilation helper, this expects the shared door-id counter
/// to equal the door count.
pub fn connect_to_parent_room(
    plan: &mut FloorPlan,
    namespace: &str,
    room: &Room,
    parent: &IntegrationResource,
    door_id: &mut usize,
) -> (res: FloorPlanResult<()>)
    requires
        old(plan).wf(),
        *old(door_id) == old(plan)@.doors.len(),
        id_present(old(plan)@.rooms, room.id@),
        old(plan)@.doors.len() + 2 <= 0x7FFF_FFFEusize,
    ensures
        final(plan).wf(),
        res is Ok,
        state_of(*final(plan)) == (if id_present_v(
            room_views(old(plan)@.rooms),
            resource_room_id_v(namespace@, parent.kind@, parent.name@),
        ) {
            let st = state_of(*old(plan));
            let pid = resource_room_id_v(namespace@, parent.kind@, parent.name@);
            sp_connect(st, room.id@, room.name@, pid, st.rooms[last_with_id_v(st.rooms, pid).unwrap()].name)
        } else {
            state_of(*old(plan))
        }),
        *final(door_id) == final(plan)@.doors.len(),
        final(plan)@.rooms == old(plan)@.rooms,
        final(plan)@.doors.len() <= old(plan)@.doors.len() + 2,
        final(plan)@.start == old(plan)@.start,
{
    let mut parent_room_id = namespace.to_owned();
    parent_room_id.append("-");
    parent_room_id.append(parent.kind.as_str());
    parent_room_id.append("-");
    parent_room_id.append(parent.name.as_str());
    proof {
        lemma_last_with_id_views(plan@.rooms, parent_room_id@);
    }
    match plan.get_room_by_id(parent_room_id.as_str()) {
        Ok(parent_room) => {
            proof {
                lemma_last_with_id_present(plan@.rooms, parent_room_id@);
            }
            match connect_rooms_with_doors(plan, room, &parent_room, door_id) {
                Ok(()) => {
                    proof {
                        lemma_last_with_id_views(old(plan)@.rooms, parent_room_id@);
                    }
                    Ok(())
                },
                Err(e) => {
                    proof {
                        assert(false);
                    }
                    Err(e)
                },
            }
        },
        Err(_) => Ok(()),
    }
}

/// One room per extracted resource, each connected to the outer hallway,
/// then its owner connection, container rooms and volume mount rooms.
/// Like every compilation helper, this expects the shared door-id counter
/// to equal the door count.
pub fn add_rooms(
    plan: &mut FloorPlan,
    resources: &Vec<IntegrationResource>,
    namespace: &str,
    outer_room: &Room,
    door_id: &mut usize,
) -> (res: FloorPlanResult<()>)
    requires
        old(plan).wf(),
        *old(door_id) == old(plan)@.doors.len(),
        id_present(old(plan)@.rooms, outer_room.id@),
        old(plan)@.rooms.len() + units_resources(resources@) <= 0x3FFF_FFFFusize,
        old(plan)@.doors.len() + 2 * units_resources(resources@) <= 0x7FFF_FFFEusize,
    ensures
        final(plan).wf(),
        res is Ok,
        state_of(*final(plan)) == sp_resources(
            state_of(*old(plan)),
            namespace@,
            resources@,
            outer_room.id@,
            outer_room.name@,
        ),
        *final(door_id) == final(plan)@.doors.len(),
        rooms_extend(old(plan)@.rooms, final(plan)@.rooms),
        final(plan)@.rooms.len() <= old(plan)@.rooms.len() + units_resources(resources@),
        final(plan)@.doors.len() <= old(plan)@.doors.len() + 2 * units_resources(resources@),
        old(plan)@.start is Some ==> final(plan)@.start == old(plan)@.start,
{
    let m = resources.len();
    proof {
        assert(resources@.subrange(0, m as int) =~= resources@);
    }
    let mut i: usize = 0;
    while i < m
        invariant
            plan.wf(),
            m == resources@.len(),
            0 <= i <= m,
            *door_id == plan@.doors.len(),
            id_present(plan@.rooms, outer_room.id@),
            plan@.rooms.len() + units_resources(resources@.subrange(i as int, m as int))
                <= 0x3FFF_FFFFusize,
            plan@.doors.len() + 2 * units_resources(resources@.subrange(i as int, m as int))
                <= 0x7FFF_FFFEusize,
            sp_resources(
                state_of(*plan),
                namespace@,
                resources@.subrange(i as int, m as int),
                outer_room.id@,
                outer_room.name@,
            ) == sp_resources(
                state_of(*old(plan)),
                namespace@,
                resources@,
                outer_room.id@,
                outer_room.name@,
            ),
            rooms_extend(old(plan)@.rooms, plan@.rooms),
            plan@.rooms.len() + units_resources(resources@.subrange(i as int, m as int))
                <= old(plan)@.rooms.len() + units_resources(resources@),
            plan@.doors.len() + 2 * units_resources(resources@.subrange(i as int, m as int))
                <= old(plan)@.doors.len() + 2 * units_resources(resources@),
            old(plan)@.start is Some ==> plan@.start == old(plan)@.start,
        decreases m - i,
    {
        let ghost sub = resources@.subrange(i as int, m as int);
        proof {
            assert(sub[0] == resources@[i as int]);
            assert(sub.drop_first() =~= resources@.subrange(i + 1, m as int));
            lemma_units_resources_nonneg(sub.drop_first());
            lemma_units_containers_nonneg(resources@[i as int].children@);
        }
        let ghost pre = state_of(*plan);
        let ghost pre_rooms = plan@.rooms;
        let r = &resources[i];
        let room = create_resource_room(namespace, r);
        let ghost roomv = room@;
        plan.add_room(room.clone());
        proof {
            assert(room_views(plan@.rooms) =~= room_views(pre_rooms).push(roomv));
            assert(plan@.rooms[plan@.rooms.len() - 1].id@ == room.id@);
            assert(id_present(plan@.rooms, room.id@));
            let w = choose|w: int| 0 <= w < pre_rooms.len() && pre_rooms[w].id@ == outer_room.id@;
            assert(plan@.rooms[w] == pre_rooms[w]);
            assert(id_present(plan@.rooms, outer_room.id@));
            assert(state_of(*plan) == sp_room(pre, roomv));
        }
        match connect_rooms_with_doors(plan, &room, outer_room, door_id) {
            Ok(()) => {},
            Err(e) => {
                proof {
                    assert(false);
                }
                return Err(e);
            },
        }
        proof {
            assert(state_of(*plan) == sp_connect(
                sp_room(pre, roomv),
                roomv.id,
                roomv.name,
                outer_room.id@,
                outer_room.name@,
            ));
        }
        if let Some(parent) = &r.parent {
            match connect_to_parent_room(plan, namespace, &room, parent, door_id) {
                Ok(()) => {},
                Err(e) => {
                    proof {
                        assert(false);
                    }
                    return Err(e);
                },
            }
        }
        proof {
            let w = choose|w: int| 0 <= w < pre_rooms.len() && pre_rooms[w].id@ == outer_room.id@;
            assert(plan@.rooms[w] == pre_rooms[w]);
            assert(id_present(plan@.rooms, outer_room.id@));
            assert(plan@.rooms[plan@.rooms.len() - 1].id@ == room.id@);
            assert(id_present(plan@.rooms, room.id@));
        }
        match add_container_rooms(plan, namespace, r, &room, door_id) {
            Ok(()) => {},
            Err(e) => {
                proof {
                    assert(false);
                }
                return Err(e);
            },
        }
        proof {
            assert(state_of(*plan) == sp_resource(
                pre,
                namespace@,
                resources@[i as int],
                outer_room.id@,
                outer_room.name@,
            ));
            let w = choose|w: int| 0 <= w < pre_rooms.len() && pre_rooms[w].id@ == outer_room.id@;
            assert(plan@.rooms[w] == pre_rooms[w]);
            assert(id_present(plan@.rooms, outer_room.id@));
        }
        i += 1;
    }
    proof {
        assert(resources@.subrange(m as int, m as int) =~= Seq::<IntegrationResource>::empty());
    }
    Ok(())
}

/// One kind hallway, connected to the outer room as the inner room of
/// the pair, then the kind's resource rooms.  Like every compilation
/// helper, this expects the shared door-id counter to equal the door
/// count: every door id is drawn from that counter, which starts at zero
/// with the empty plan.
pub fn setup_hallway_and_rooms(
    plan: &mut FloorPlan,
    namespace: &str,
    outer_room: &Room,
    door_id: &mut usize,
    kind: &str,
    resources: &Vec<IntegrationResource>,
) -> (res: FloorPlanResult<()>)
    requires
        old(plan).wf(),
        *old(door_id) == old(plan)@.doors.len(),
        id_present(old(plan)@.rooms, outer_room.id@),
        old(plan)@.rooms.len() + 1 + units_resources(resources@) <= 0x3FFF_FFFFusize,
        old(plan)@.doors.len() + 2 + 2 * units_resources(resources@) <= 0x7FFF_FFFEusize,
    ensures
        final(plan).wf(),
        res is Ok,
        state_of(*final(plan)) == sp_kind_parts(
            state_of(*old(plan)),
            namespace@,
            kind@,
            resources@,
            outer_room.id@,
            outer_room.name@,
        ),
        *final(door_id) == final(plan)@.doors.len(),
        rooms_extend(old(plan)@.rooms, final(plan)@.rooms),
        final(plan)@.rooms.len() <= old(plan)@.rooms.len() + 1 + units_resources(resources@),
        final(plan)@.doors.len() <= old(plan)@.doors.len() + 2 + 2 * units_resources(resources@),
        old(plan)@.start is Some ==> final(plan)@.start == old(plan)@.start,
{
    proof {
        lemma_units_resources_nonneg(resources@);
    }
    let ghost pre = state_of(*plan);
    let ghost pre_rooms = plan@.rooms;
    let hallway = create_hallway_room(namespace, kind);
    let ghost roomv = hallway@;
    plan.add_room(hallway.clone());
    proof {
        assert(room_views(plan@.rooms) =~= room_views(pre_rooms).push(roomv));
        assert(plan@.rooms[plan@.rooms.len() - 1].id@ == hallway.id@);
        assert(id_present(plan@.rooms, hallway.id@));
        let w = choose|w: int| 0 <= w < pre_rooms.len() && pre_rooms[w].id@ == outer_room.id@;
        assert(plan@.rooms[w] == pre_rooms[w]);
        assert(id_present(plan@.rooms, outer_room.id@));
        assert(state_of(*plan) == sp_room(pre, roomv));
    }
    match connect_rooms_with_doors(plan, &hallway, outer_room, door_id) {
        Ok(()) => {},
        Err(e) => {
            proof {
                assert(false);
            }
            return Err(e);
        },
    }
    proof {
        assert(state_of(*plan) == sp_connect(
            sp_room(pre, roomv),
            roomv.id,
            roomv.name,
            outer_room.id@,
            outer_room.name@,
        ));
        assert(plan@.rooms == pre_rooms.push(hallway));
        assert(plan@.rooms[plan@.rooms.len() - 1].id@ == hallway.id@);
        assert(id_present(plan@.rooms, hallway.id@));
    }
    match add_rooms(plan, resources, namespace, &hallway, door_id) {
        Ok(()) => {},
        Err(e) => {
            proof {
                assert(false);
            }
            return Err(e);
        },
    }
    Ok(())
}

/// One namespace hallway, connected to the cluster lobby as the inner
/// room of the pair, then one kind hallway per queried kind.  Like every
/// compilation helper, this expects the shared door-id counter to equal
/// the door count.
pub fn process_namespace(
    plan: &mut FloorPlan,
    cluster_room: &Room,
    door_id: &mut usize,
    namespace: &NamespaceSnapshot,
) -> (res: FloorPlanResult<()>)
    requires
        old(plan).wf(),
        *old(door_id) == old(plan)@.doors.len(),
        cluster_room.id@ == "cluster"@,
        cluster_room.name@ == "Cluster Lobby"@,
        id_present(old(plan)@.rooms, cluster_room.id@),
        old(plan)@.rooms.len() + 1 + units_kinds(namespace.kinds@) <= 0x3FFF_FFFFusize,
        old(plan)@.doors.len() + 2 + 2 * units_kinds(namespace.kinds@) <= 0x7FFF_FFFEusize,
    ensures
        final(plan).wf(),
        res is Ok,
        state_of(*final(plan)) == sp_namespace_parts(
            state_of(*old(plan)),
            namespace.name@,
            namespace.kinds@,
        ),
        *final(door_id) == final(plan)@.doors.len(),
        rooms_extend(old(plan)@.rooms, final(plan)@.rooms),
        final(plan)@.rooms.len() <= old(plan)@.rooms.len() + 1 + units_kinds(namespace.kinds@),
        final(plan)@.doors.len() <= old(plan)@.doors.len() + 2 + 2 * units_kinds(
            namespace.kinds@,
        ),
        old(plan)@.start is Some ==> final(plan)@.start == old(plan)@.start,
{
    proof {
        lemma_units_kinds_nonneg(namespace.kinds@);
    }
    let ghost pre = state_of(*plan);
    let ghost pre_rooms = plan@.rooms;
    let namespace_room = create_namespace_room(namespace.name.as_str());
    let ghost roomv = namespace_room@;
    plan.add_room(namespace_room.clone());
    proof {
        assert(room_views(plan@.rooms) =~= room_views(pre_rooms).push(roomv));
        assert(plan@.rooms[plan@.rooms.len() - 1].id@ == namespace_room.id@);
        assert(id_present(plan@.rooms, namespace_room.id@));
        let w = choose|w: int| 0 <= w < pre_rooms.len() && pre_rooms[w].id@ == cluster_room.id@;
        assert(plan@.rooms[w] == pre_rooms[w]);
        assert(id_present(plan@.rooms, cluster_room.id@));
        assert(state_of(*plan) == sp_room(pre, roomv));
    }
    match connect_rooms_with_doors(plan, &namespace_room, cluster_room, door_id) {
        Ok(()) => {},
        Err(e) => {
            proof {
                assert(false);
            }
            return Err(e);
        },
    }
    proof {
        assert(state_of(*plan) == sp_connect(
            sp_room(pre, roomv),
            roomv.id,
            roomv.name,
            "cluster"@,
            "Cluster Lobby"@,
        ));
    }
    let ghost after_connect = state_of(*plan);
    let ghost rooms_after_connect = plan@.rooms;
    let m = namespace.kinds.len();
    proof {
        assert(namespace.kinds@.subrange(0, m as int) =~= namespace.kinds@);
    }
    let mut i: usize = 0;
    while i < m
        invariant
            plan.wf(),
            m == namespace.kinds@.len(),
            0 <= i <= m,
            *door_id == plan@.doors.len(),
            roomv == namespace_room@,
            namespace_room.id@ == namespace.name@,
            namespace_room.name@ == ns_room_name_v(namespace.name@),
            id_present(plan@.rooms, namespace_room.id@),
            plan@.rooms.len() + units_kinds(namespace.kinds@.subrange(i as int, m as int))
                <= 0x3FFF_FFFFusize,
            plan@.doors.len() + 2 * units_kinds(namespace.kinds@.subrange(i as int, m as int))
                <= 0x7FFF_FFFEusize,
            sp_kinds(
                state_of(*plan),
                namespace.name@,
                namespace.kinds@.subrange(i as int, m as int),
                namespace_room.id@,
                namespace_room.name@,
            ) == sp_kinds(
                after_connect,
                namespace.name@,
                namespace.kinds@,
                namespace_room.id@,
                namespace_room.name@,
            ),
            rooms_extend(rooms_after_connect, plan@.rooms),
            rooms_extend(old(plan)@.rooms, plan@.rooms),
            plan@.rooms.len() + units_kinds(namespace.kinds@.subrange(i as int, m as int))
                <= old(plan)@.rooms.len() + 1 + units_kinds(namespace.kinds@),
            plan@.doors.len() + 2 * units_kinds(namespace.kinds@.subrange(i as int, m as int))
                <= old(plan)@.doors.len() + 2 + 2 * units_kinds(namespace.kinds@),
            old(plan)@.start is Some ==> plan@.start == old(plan)@.start,
        decreases m - i,
    {
        let ghost sub = namespace.kinds@.subrange(i as int, m as int);
        proof {
            assert(sub[0] == namespace.kinds@[i as int]);
            assert(sub.drop_first() =~= namespace.kinds@.subrange(i + 1, m as int));
            lemma_units_kinds_nonneg(sub.drop_first());
            lemma_units_resources_nonneg(namespace.kinds@[i as int].resources@);
        }
        let ghost pre_it = state_of(*plan);
        let ks = &namespace.kinds[i];
        match setup_hallway_and_rooms(
            plan,
            namespace.name.as_str(),
            &namespace_room,
            door_id,
            ks.kind.as_str(),
            &ks.resources,
        ) {
            Ok(()) => {},
            Err(e) => {
                proof {
                    assert(false);
                }
                return Err(e);
            },
        }
        proof {
            assert(state_of(*plan) == sp_kind(
                pre_it,
                namespace.name@,
                namespace.kinds@[i as int],
                namespace_room.id@,
                namespace_room.name@,
            ));
        }
        i += 1;
    }
    proof {
        assert(namespace.kinds@.subrange(m as int, m as int) =~= Seq::<KindSnapshot>::empty());
    }
    Ok(())
}

/// Builds a whole floorplan from one topology snapshot: the cluster lobby,
/// then every namespace in order.  The first room added, the lobby, is the
/// start room.  A snapshot within the size bound always compiles.
pub fn compile_topology(snapshot: &TopologySnapshot) -> (r: FloorPlanResult<FloorPlan>)
    requires
        units_topology(*snapshot) <= 0x3FFF_FFFEusize,
    ensures
        r matches Ok(plan) && ({
            &&& plan.wf()
            &&& room_views(plan@.rooms) == sp_topology(*snapshot).rooms
            &&& edge_views(plan@.doors) == sp_topology(*snapshot).edges
            &&& plan@.start == Some("cluster"@)
        }),
{
    proof {
        lemma_units_namespaces_nonneg(snapshot.namespaces@);
    }
    let mut floorplan = FloorPlan::new();
    let cluster_room = create_cluster_room();
    floorplan.add_room(cluster_room.clone());
    proof {
        assert(room_views(floorplan@.rooms) =~= seq![
            RoomView { id: "cluster"@, name: "Cluster Lobby"@ },
        ]);
        assert(edge_views(floorplan@.doors) =~= Seq::<EdgeView>::empty());
        assert(floorplan@.rooms[0].id@ == cluster_room.id@);
        assert(id_present(floorplan@.rooms, cluster_room.id@));
    }
    let ghost st0 = state_of(floorplan);
    let ghost rooms0 = floorplan@.rooms;
    let mut door_id: usize = 0;
    let m = snapshot.namespaces.len();
    proof {
        assert(snapshot.namespaces@.subrange(0, m as int) =~= snapshot.namespaces@);
    }
    let mut i: usize = 0;
    while i < m
        invariant
            floorplan.wf(),
            m == snapshot.namespaces@.len(),
            0 <= i <= m,
            door_id == floorplan@.doors.len(),
            id_present(floorplan@.rooms, "cluster"@),
            cluster_room.id@ == "cluster"@,
            cluster_room.name@ == "Cluster Lobby"@,
            floorplan@.rooms.len() + units_namespaces(
                snapshot.namespaces@.subrange(i as int, m as int),
            ) <= 0x3FFF_FFFFusize,
            floorplan@.doors.len() + 2 * units_namespaces(
                snapshot.namespaces@.subrange(i as int, m as int),
            ) <= 0x7FFF_FFFEusize,
            sp_namespaces(
                state_of(floorplan),
                snapshot.namespaces@.subrange(i as int, m as int),
            ) == sp_namespaces(st0, snapshot.namespaces@),
            floorplan@.start == Some("cluster"@),
        decreases m - i,
    {
        let ghost sub = snapshot.namespaces@.subrange(i as int, m as int);
        proof {
            assert(sub[0] == snapshot.namespaces@[i as int]);
            assert(sub.drop_first() =~= snapshot.namespaces@.subrange(i + 1, m as int));
            lemma_units_namespaces_nonneg(sub.drop_first());
            lemma_units_kinds_nonneg(snapshot.namespaces@[i as int].kinds@);
        }
        let ghost pre_it = state_of(floorplan);
        match process_namespace(&mut floorplan, &cluster_room, &mut door_id, &snapshot.namespaces[i]) {
            Ok(()) => {},
            Err(e) => {
                proof {
                    assert(false);
                }
                return Err(e);
            },
        }
        proof {
            assert(state_of(floorplan) == sp_namespace(pre_it, snapshot.namespaces@[i as int]));
        }
        i += 1;
    }
    proof {
        assert(snapshot.namespaces@.subrange(m as int, m as int) =~= Seq::<
            NamespaceSnapshot,
        >::empty());
        assert(st0 == CompState {
            rooms: seq![RoomView { id: "cluster"@, name: "Cluster Lobby"@ }],
            edges: Seq::<EdgeView>::empty(),
        });
    }
    Ok(floorplan)
}

/// `compile_topology` behind a size check: any snapshot may be handed in,
/// and one too large for the machine comes back as a `ServiceError`
/// instead of being compiled.
pub fn try_compile_topology(snapshot: &TopologySnapshot) -> (r: FloorPlanResult<FloorPlan>)
    ensures
        units_topology(*snapshot) <= 0x3FFF_FFFEusize as int ==> (r matches Ok(plan) && {
            &&& plan.wf()
            &&& room_views(plan@.rooms) == sp_topology(*snapshot).rooms
            &&& edge_views(plan@.doors) == sp_topology(*snapshot).edges
            &&& plan@.start == Some("cluster"@)
        }),
        units_topology(*snapshot) > 0x3FFF_FFFEusize as int ==> (r matches Err(e) && e matches
        FloorPlanError::ServiceError(_)),
{
    match units_of_namespaces(&snapshot.namespaces) {
        Some(u) => {
            if u <= 0x3FFF_FFFD {
                compile_topology(snapshot)
            } else {
                Err(FloorPlanError::ServiceError("topology snapshot too large".to_owned()))
            }
        },
        None => Err(FloorPlanError::ServiceError("topology snapshot too large".to_owned())),
    }
}

} // verus!
