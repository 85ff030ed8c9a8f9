//! Rooms, doors and the floorplan graph store.

use vstd::prelude::*;
use vstd::std_specs::cmp::PartialEqSpec;

verus! {

/// One node of the floorplan graph.
#[derive(Debug, PartialEq, Eq, Hash)]
pub struct Room {
    pub id: String,
    pub name: String,
}

/// One directed edge of the floorplan graph; `is_exit` marks the way back.
#[derive(Debug, PartialEq, Eq, Hash)]
pub struct Door {
    pub id: String,
    pub name: String,
    pub is_exit: bool,
}

/// The abstract value of a `Room`: both strings as character sequences.
pub ghost struct RoomView {
    pub id: Seq<char>,
    pub name: Seq<char>,
}

/// The abstract value of a `Door`.
pub ghost struct DoorView {
    pub id: Seq<char>,
    pub name: Seq<char>,
    pub is_exit: bool,
}

impl View for Room {
    type V = RoomView;

    open spec fn view(&self) -> RoomView {
        RoomView { id: self.id@, name: self.name@ }
    }
}

impl View for Door {
    type V = DoorView;

    open spec fn view(&self) -> DoorView {
        DoorView { id: self.id@, name: self.name@, is_exit: self.is_exit }
    }
}

impl Clone for Room {
    fn clone(&self) -> (r: Room)
        ensures
            r == *self,
    {
        Room { id: self.id.clone(), name: self.name.clone() }
    }
}

impl Clone for Door {
    fn clone(&self) -> (r: Door)
        ensures
            r == *self,
    {
        Door { id: self.id.clone(), name: self.name.clone(), is_exit: self.is_exit }
    }
}

/// The one notification handed to the consumer: a fully-built floorplan,
/// owned exclusively by the consumer from then on.
pub struct FloorPlanEvent {
    pub floorplan: FloorPlan,
}

/// Why a lookup or a remote fetch failed.
#[derive(Debug, PartialEq, Eq, Hash)]
pub enum FloorPlanError {
    RoomNotFound(String),
    DoorNotFound(String),
    ServiceError(String),
}

impl Clone for FloorPlanError {
    fn clone(&self) -> (r: FloorPlanError)
        ensures
            r == *self,
    {
        match self {
            FloorPlanError::RoomNotFound(s) => FloorPlanError::RoomNotFound(s.clone()),
            FloorPlanError::DoorNotFound(s) => FloorPlanError::DoorNotFound(s.clone()),
            FloorPlanError::ServiceError(s) => FloorPlanError::ServiceError(s.clone()),
        }
    }
}

pub type FloorPlanResult<T> = Result<T, FloorPlanError>;

/// The abstract value of a floorplan: the rooms in insertion order, the
/// doors in insertion order as (source node, target node, door), and the
/// id of the start room, if one is set.
pub ghost struct PlanView {
    pub rooms: Seq<Room>,
    pub doors: Seq<(usize, usize, Door)>,
    pub start: Option<Seq<char>>,
}

/// Whether some room in `rooms` carries the id `id`.
pub open spec fn id_present(rooms: Seq<Room>, id: Seq<char>) -> bool {
    exists|i: int| 0 <= i < rooms.len() && rooms[i].id@ == id
}

/// The index of the most recently added room carrying `id`, if any.
/// Lookups resolve to this room: re-adding an id supersedes the old room.
pub open spec fn last_with_id(rooms: Seq<Room>, id: Seq<char>) -> Option<int>
    decreases rooms.len(),
{
    if rooms.len() == 0 {
        None
    } else if rooms.last().id@ == id {
        Some(rooms.len() - 1)
    } else {
        last_with_id(rooms.drop_last(), id)
    }
}

pub proof fn lemma_last_with_id_present(rooms: Seq<Room>, id: Seq<char>)
    ensures
        id_present(rooms, id) <==> last_with_id(rooms, id) is Some,
        last_with_id(rooms, id) matches Some(k) ==> 0 <= k < rooms.len() && rooms[k].id@ == id,
    decreases rooms.len(),
{
    if rooms.len() > 0 {
        lemma_last_with_id_present(rooms.drop_last(), id);
        if rooms.last().id@ != id {
            assert(id_present(rooms.drop_last(), id) ==> id_present(rooms, id));
            if id_present(rooms, id) {
                let i = choose|i: int| 0 <= i < rooms.len() && rooms[i].id@ == id;
                assert(i < rooms.len() - 1);
                assert(rooms.drop_last()[i].id@ == id);
            }
        }
    }
}

/// When `k` is the last position carrying `id`, lookups resolve to `k`.
pub proof fn lemma_last_with_id_found(rooms: Seq<Room>, id: Seq<char>, k: int)
    requires
        0 <= k < rooms.len(),
        rooms[k].id@ == id,
        forall|j: int| k < j < rooms.len() ==> rooms[j].id@ != id,
    ensures
        last_with_id(rooms, id) == Some(k),
    decreases rooms.len(),
{
    if k < rooms.len() - 1 {
        lemma_last_with_id_found(rooms.drop_last(), id, k);
    }
}

pub proof fn lemma_last_with_id_push(rooms: Seq<Room>, r: Room, id: Seq<char>)
    ensures
        last_with_id(rooms.push(r), id) == if r.id@ == id {
            Some(rooms.len() as int)
        } else {
            last_with_id(rooms, id)
        },
{
    let p = rooms.push(r);
    assert(p.drop_last() =~= rooms);
}

/// The first entry of `pairs` whose door carries the id `id`, if any.
/// Door lookups resolve to this pair.
pub open spec fn find_door(pairs: Seq<(Door, usize)>, id: Seq<char>) -> Option<(Door, usize)>
    decreases pairs.len(),
{
    if pairs.len() == 0 {
        None
    } else if pairs[0].0.id@ == id {
        Some(pairs[0])
    } else {
        find_door(pairs.drop_first(), id)
    }
}

/// Whether `e` is a valid index entry for `rooms`: it points at the most
/// recently added room with its key.
pub open spec fn index_entry_ok(rooms: Seq<Room>, e: (String, usize)) -> bool {
    &&& e.1 < rooms.len()
    &&& Some(e.1 as int) == last_with_id(rooms, e.0@)
}

/// Whether the entry list `index` has an entry keyed by `id`.
pub open spec fn index_has_key(index: Seq<(String, usize)>, id: Seq<char>) -> bool {
    exists|k: int| 0 <= k < index.len() && index[k].0@ == id
}

/// A directed graph of rooms and doors, with an id index and a start room.
pub struct FloorPlan {
    graph: petgraph::graph::DiGraph<Room, Door>,
    room_index_map: Vec<(String, usize)>,
    start_room_id: Option<String>,
}

impl View for FloorPlan {
    type V = PlanView;

    closed spec fn view(&self) -> PlanView {
        PlanView {
            rooms: crate::graph_store::graph_rooms(self.graph),
            doors: crate::graph_store::graph_doors(self.graph),
            start: match self.start_room_id {
                Some(s) => Some(s@),
                None => None,
            },
        }
    }
}

impl FloorPlan {
    /// Well-formedness: the index has exactly one entry per room id, every
    /// entry resolves to the most recent room with that id, the start room
    /// id is set exactly when the graph is non-empty and always resolves,
    /// and every door connects existing rooms.
    pub closed spec fn wf(&self) -> bool {
        &&& forall|i: int, j: int|
            0 <= i < j < self.room_index_map@.len() ==> self.room_index_map@[i].0@
                != self.room_index_map@[j].0@
        &&& forall|i: int|
            0 <= i < self.room_index_map@.len() ==> index_entry_ok(
                self@.rooms,
                #[trigger] self.room_index_map@[i],
            )
        &&& forall|i: int|
            0 <= i < self@.rooms.len() ==> index_has_key(
                self.room_index_map@,
                (#[trigger] self@.rooms[i]).id@,
            )
        &&& match self.start_room_id {
            Some(s) => id_present(self@.rooms, s@),
            None => self@.rooms.len() == 0,
        }
        &&& forall|i: int|
            0 <= i < self@.doors.len() ==> (#[trigger] self@.doors[i]).0 < self@.rooms.len()
                && self@.doors[i].1 < self@.rooms.len()
    }

    /// An empty floorplan: no rooms, no doors, no start room.
    pub fn new() -> (plan: FloorPlan)
        ensures
            plan.wf(),
            plan@.rooms == Seq::<Room>::empty(),
            plan@.doors == Seq::<(usize, usize, Door)>::empty(),
            plan@.start is None,
    {
        FloorPlan {
            graph: crate::graph_store::graph_new(),
            room_index_map: Vec::new(),
            start_room_id: None,
        }
    }

    /// The number of rooms and the number of doors.
    pub fn get_world_size(&self) -> (r: (usize, usize))
        ensures
            r.0 == self@.rooms.len(),
            r.1 == self@.doors.len(),
    {
        (
            crate::graph_store::graph_node_count(&self.graph),
            crate::graph_store::graph_edge_count(&self.graph),
        )
    }

    /// Adds a room as a new node and indexes it by its id; the first room
    /// ever added becomes the start room.  Returns the new node's index.
    /// Re-adding an id keeps the old node but redirects lookups of that id
    /// to the new one.
    pub fn add_room(&mut self, room: Room) -> (ix: usize)
        requires
            old(self).wf(),
            old(self)@.rooms.len() < 0xFFFF_FFFFusize,
        ensures
            final(self).wf(),
            ix == old(self)@.rooms.len(),
            final(self)@.rooms == old(self)@.rooms.push(room),
            final(self)@.doors == old(self)@.doors,
            final(self)@.start == if old(self)@.start is Some {
                old(self)@.start
            } else {
                Some(room.id@)
            },
    {
        let ghost or = self@.rooms;
        let ghost oi = self.room_index_map@;
        let room_id = room.id.clone();
        let ix = crate::graph_store::graph_add_node(&mut self.graph, room);
        let ghost nr = self@.rooms;
        let ghost rm = nr.last();
        proof {
            assert(nr == or.push(rm));
            assert forall|id: Seq<char>|
                #[trigger] last_with_id(nr, id) == if rm.id@ == id {
                    Some(or.len() as int)
                } else {
                    last_with_id(or, id)
                } by {
                lemma_last_with_id_push(or, rm, id);
            }
        }
        let n = self.room_index_map.len();
        let mut i: usize = 0;
        let mut pos: Option<usize> = None;
        while i < n
            invariant
                n == self.room_index_map.len(),
                0 <= i <= n,
                match pos {
                    Some(p) => p < i && self.room_index_map@[p as int].0@ == room_id@,
                    None => forall|k: int| 0 <= k < i ==> self.room_index_map@[k].0@ != room_id@,
                },
            decreases n - i,
        {
            if pos.is_none() && crate::text::str_eq(
                self.room_index_map[i].0.as_str(),
                room_id.as_str(),
            ) {
                pos = Some(i);
            }
            i += 1;
        }
        match pos {
            Some(p) => {
                let key = self.room_index_map[p].0.clone();
                self.room_index_map[p] = (key, ix);
            },
            None => {
                self.room_index_map.push((room_id, ix));
            },
        }
        let ghost ni = self.room_index_map@;
        proof {
            // the keys of the index are unchanged, or the new id is appended
            match pos {
                Some(p) => {
                    assert forall|k: int| 0 <= k < ni.len() implies ni[k].0@ == oi[k].0@ by {}
                    assert(ni.len() == oi.len());
                },
                None => {
                    assert(ni =~= oi.push((room_id, ix)));
                },
            }
            // each entry still points at the most recent room with its key
            assert forall|k: int| 0 <= k < ni.len() implies index_entry_ok(nr, ni[k]) by {
                if ni[k].0@ == rm.id@ {
                    assert(ni[k].1 == ix);
                } else {
                    assert(index_entry_ok(or, oi[k]));
                }
            }
            // every room id, the new one too, still has an index entry
            assert forall|i2: int| 0 <= i2 < nr.len() implies index_has_key(ni, nr[i2].id@) by {
                if i2 < or.len() {
                    assert(nr[i2] == or[i2]);
                    let k = choose|k: int| 0 <= k < oi.len() && oi[k].0@ == or[i2].id@;
                    assert(ni[k].0@ == or[i2].id@);
                } else {
                    match pos {
                        Some(p) => {
                            assert(ni[p as int].0@ == rm.id@);
                        },
                        None => {
                            assert(ni[ni.len() - 1].0@ == rm.id@);
                        },
                    }
                }
            }
        }
        if self.start_room_id.is_none() {
            // room.id was moved into the graph; the indexed key is its copy
            proof {
                // with no start room the graph was empty, so the index was too,
                // and the appended entry is the last one
                assert(or.len() == 0);
                if oi.len() > 0 {
                    assert(index_entry_ok(or, oi[0]));
                }
                assert(oi.len() == 0);
            }
            let start = self.room_index_map[self.room_index_map.len() - 1].0.clone();
            self.start_room_id = Some(start);
        }
        proof {
            match &self.start_room_id {
                Some(s) => {
                    if or.len() > 0 && old(self).start_room_id is Some {
                        let j = choose|j: int| 0 <= j < or.len() && or[j].id@ == s@;
                        assert(nr[j] == or[j]);
                    } else {
                        assert(s@ == rm.id@);
                        assert(nr[nr.len() - 1].id@ == s@);
                    }
                },
                None => {},
            }
            assert forall|k: int| 0 <= k < self@.doors.len() implies (#[trigger] self@.doors[k]).0
                < nr.len() && self@.doors[k].1 < nr.len() by {
                assert(old(self)@.doors[k].0 < or.len() && old(self)@.doors[k].1 < or.len());
            }
        }
        ix
    }

    /// The node index the id resolves to: the most recently added room
    /// carrying it, or `RoomNotFound` when no room carries it.
    pub fn get_room_idx_by_id(&self, room_id: &str) -> (r: FloorPlanResult<usize>)
        requires
            self.wf(),
        ensures
            match r {
                Ok(ix) => Some(ix as int) == last_with_id(self@.rooms, room_id@),
                Err(e) => !id_present(self@.rooms, room_id@) && (e matches
                FloorPlanError::RoomNotFound(s) && s@ == room_id@),
            },
    {
        let n = self.room_index_map.len();
        let mut i: usize = 0;
        while i < n
            invariant
                self.wf(),
                n == self.room_index_map.len(),
                0 <= i <= n,
                forall|k: int| 0 <= k < i ==> self.room_index_map@[k].0@ != room_id@,
            decreases n - i,
        {
            if crate::text::str_eq(self.room_index_map[i].0.as_str(), room_id) {
                proof {
                    assert(index_entry_ok(self@.rooms, self.room_index_map@[i as int]));
                }
                return Ok(self.room_index_map[i].1);
            }
            i += 1;
        }
        proof {
            if id_present(self@.rooms, room_id@) {
                let j = choose|j: int|
                    0 <= j < self@.rooms.len() && self@.rooms[j].id@ == room_id@;
                assert(index_has_key(self.room_index_map@, self@.rooms[j].id@));
            }
        }
        Err(FloorPlanError::RoomNotFound(room_id.to_owned()))
    }

    /// The room at a node index, or `RoomNotFound` carrying the decimal
    /// index when it is out of range.
    pub fn get_room(&self, room_index: usize) -> (r: FloorPlanResult<Room>)
        requires
            self.wf(),
        ensures
            match r {
                Ok(room) => room_index < self@.rooms.len() && room == self@.rooms[room_index as int],
                Err(e) => room_index >= self@.rooms.len() && (e matches
                FloorPlanError::RoomNotFound(s) && s@ == crate::text::dec_str(room_index as nat)),
            },
    {
        let n = crate::graph_store::graph_node_count(&self.graph);
        if room_index < n {
            Ok(crate::graph_store::graph_node_weight(&self.graph, room_index).clone())
        } else {
            Err(FloorPlanError::RoomNotFound(crate::text::usize_to_string(room_index)))
        }
    }

    /// The room an id resolves to, or `RoomNotFound` carrying the id.
    pub fn get_room_by_id(&self, room_id: &str) -> (r: FloorPlanResult<Room>)
        requires
            self.wf(),
        ensures
            match r {
                Ok(room) => id_present(self@.rooms, room_id@) && room == self@.rooms[last_with_id(
                    self@.rooms,
                    room_id@,
                ).unwrap()],
                Err(e) => !id_present(self@.rooms, room_id@) && (e matches
                FloorPlanError::RoomNotFound(s) && s@ == room_id@),
            },
    {
        match self.get_room_idx_by_id(room_id) {
            Ok(ix) => {
                proof {
                    lemma_last_with_id_present(self@.rooms, room_id@);
                }
                Ok(crate::graph_store::graph_node_weight(&self.graph, ix).clone())
            },
            Err(e) => Err(e),
        }
    }

    /// The ids of all rooms: one entry per distinct id, in no promised order.
    pub fn get_all_room_ids(&self) -> (r: Vec<String>)
        requires
            self.wf(),
        ensures
            forall|k1: int, k2: int| 0 <= k1 < k2 < r@.len() ==> r@[k1]@ != r@[k2]@,
            forall|k: int| 0 <= k < r@.len() ==> id_present(self@.rooms, #[trigger] r@[k]@),
            forall|i: int|
                0 <= i < self@.rooms.len() ==> exists|k: int|
                    0 <= k < r@.len() && r@[k]@ == (#[trigger] self@.rooms[i]).id@,
    {
        let n = self.room_index_map.len();
        let mut out: Vec<String> = Vec::new();
        let mut i: usize = 0;
        while i < n
            invariant
                self.wf(),
                n == self.room_index_map.len(),
                0 <= i <= n,
                out@.len() == i,
                forall|k: int| 0 <= k < i ==> out@[k]@ == self.room_index_map@[k].0@,
            decreases n - i,
        {
            out.push(self.room_index_map[i].0.clone());
            i += 1;
        }
        proof {
            assert forall|k: int| 0 <= k < out@.len() implies id_present(
                self@.rooms,
                #[trigger] out@[k]@,
            ) by {
                assert(index_entry_ok(self@.rooms, self.room_index_map@[k]));
                lemma_last_with_id_present(self@.rooms, self.room_index_map@[k].0@);
            }
            assert forall|i2: int| 0 <= i2 < self@.rooms.len() implies exists|k: int|
                0 <= k < out@.len() && out@[k]@ == (#[trigger] self@.rooms[i2]).id@ by {
                assert(index_has_key(self.room_index_map@, self@.rooms[i2].id@));
                let k = choose|k: int|
                    0 <= k < self.room_index_map@.len() && self.room_index_map@[k].0@
                        == self@.rooms[i2].id@;
                assert(out@[k]@ == self@.rooms[i2].id@);
            }
        }
        out
    }

    /// Makes the room the id resolves to the start room; `RoomNotFound`
    /// carrying the id, and no change, when no room carries it.
    pub fn set_start_room(&mut self, room_id: &str) -> (r: FloorPlanResult<()>)
        requires
            old(self).wf(),
        ensures
            final(self).wf(),
            final(self)@.rooms == old(self)@.rooms,
            final(self)@.doors == old(self)@.doors,
            match r {
                Ok(()) => id_present(old(self)@.rooms, room_id@) && final(self)@.start == Some(
                    room_id@,
                ),
                Err(e) => !id_present(old(self)@.rooms, room_id@) && final(self)@ == old(self)@
                    && (e matches FloorPlanError::RoomNotFound(s) && s@ == room_id@),
            },
    {
        match self.get_room_idx_by_id(room_id) {
            Ok(_) => {
                proof {
                    lemma_last_with_id_present(self@.rooms, room_id@);
                }
                self.start_room_id = Some(room_id.to_owned());
                proof {
                    assert forall|k: int|
                        0 <= k < self@.doors.len() implies (#[trigger] self@.doors[k]).0
                        < self@.rooms.len() && self@.doors[k].1 < self@.rooms.len() by {
                        assert(old(self)@.doors[k].0 < old(self)@.rooms.len());
                    }
                }
                Ok(())
            },
            Err(e) => Err(e),
        }
    }

    /// The start room.  Fails with `RoomNotFound` exactly when the graph
    /// holds no rooms; otherwise the start id is set and resolves.
    pub fn get_start_room(&self) -> (r: FloorPlanResult<Room>)
        requires
            self.wf(),
        ensures
            match r {
                Ok(room) => self@.rooms.len() > 0 && (self@.start matches Some(sid)
                    && room == self@.rooms[last_with_id(self@.rooms, sid).unwrap()]
                    && room.id@ == sid),
                Err(e) => self@.rooms.len() == 0 && (e matches FloorPlanError::RoomNotFound(s)
                    && s@ == "Start room not set"@),
            },
    {
        match &self.start_room_id {
            Some(room_id) => {
                proof {
                    lemma_last_with_id_present(self@.rooms, room_id@);
                }
                let ix = match self.get_room_idx_by_id(room_id.as_str()) {
                    Ok(ix) => ix,
                    Err(_) => {
                        proof {
                            assert(false);
                        }
                        0
                    },
                };
                let room = crate::graph_store::graph_node_weight(&self.graph, ix).clone();
                Ok(room)
            },
            None => Err(FloorPlanError::RoomNotFound("Start room not set".to_owned())),
        }
    }

    /// Appends one directed door between two existing nodes.  Nothing is
    /// de-duplicated: callers connect each pair of rooms once per direction.
    pub fn add_door(&mut self, from: usize, to: usize, door: Door)
        requires
            old(self).wf(),
            from < old(self)@.rooms.len(),
            to < old(self)@.rooms.len(),
            old(self)@.doors.len() < 0xFFFF_FFFFusize,
        ensures
            final(self).wf(),
            final(self)@.rooms == old(self)@.rooms,
            final(self)@.start == old(self)@.start,
            final(self)@.doors == old(self)@.doors.push((from, to, door)),
    {
        crate::graph_store::graph_add_edge(&mut self.graph, from, to, door);
        proof {
            assert forall|k: int| 0 <= k < self@.doors.len() implies (#[trigger] self@.doors[k]).0
                < self@.rooms.len() && self@.doors[k].1 < self@.rooms.len() by {
                if k < old(self)@.doors.len() {
                    assert(old(self)@.doors[k].0 < old(self)@.rooms.len());
                }
            }
        }
    }

    /// The outgoing doors of a node, most recently added first; empty when
    /// the index is out of range.
    pub fn get_doors(&self, room_index: usize) -> (r: Vec<Door>)
        requires
            self.wf(),
        ensures
            r@ == crate::graph_store::outgoing_pairs(self@.doors, room_index as int).map_values(
                |p: (Door, usize)| p.0,
            ),
    {
        let n = crate::graph_store::graph_node_count(&self.graph);
        if room_index >= n {
            proof {
                self.lemma_no_outgoing(room_index as int);
            }
            return Vec::new();
        }
        let pairs = crate::graph_store::graph_edges_from(&self.graph, room_index);
        let mut out: Vec<Door> = Vec::new();
        let mut i: usize = 0;
        let m = pairs.len();
        while i < m
            invariant
                m == pairs.len(),
                0 <= i <= m,
                out@ == pairs@.subrange(0, i as int).map_values(|p: (Door, usize)| p.0),
            decreases m - i,
        {
            let door = pairs[i].0.clone();
            out.push(door);
            proof {
                assert(pairs@.subrange(0, i + 1 as int) =~= pairs@.subrange(0, i as int).push(
                    pairs@[i as int],
                ));
                assert(out@ =~= pairs@.subrange(0, i + 1 as int).map_values(
                    |p: (Door, usize)| p.0,
                ));
            }
            i += 1;
        }
        proof {
            assert(pairs@.subrange(0, m as int) =~= pairs@);
        }
        out
    }

    /// Every pair in the outgoing view of a node names a target in range.
    proof fn lemma_outgoing_in_range(&self, ix: int)
        requires
            self.wf(),
        ensures
            forall|k: int|
                0 <= k < crate::graph_store::outgoing_pairs(self@.doors, ix).len() ==> (
                #[trigger] crate::graph_store::outgoing_pairs(self@.doors, ix)[k]).1
                    < self@.rooms.len(),
    {
        let pred = crate::graph_store::leaves_node(ix);
        let filtered = self@.doors.filter(pred);
        let out = crate::graph_store::outgoing_pairs(self@.doors, ix);
        assert forall|k: int| 0 <= k < out.len() implies (#[trigger] out[k]).1
            < self@.rooms.len() by {
            assert(out[k] == crate::graph_store::weight_and_target()(
                filtered.reverse()[k],
            ));
            assert(filtered.reverse()[k] == filtered[filtered.len() - 1 - k]);
            lemma_filter_element_of(self@.doors, pred, filtered.len() - 1 - k);
            let j = choose|j: int|
                0 <= j < self@.doors.len() && self@.doors[j] == filtered[filtered.len() - 1 - k];
            assert(self@.doors[j].1 < self@.rooms.len());
        }
    }

    /// The room behind a given outgoing door of a given room: the target of
    /// the first outgoing door carrying the id, or `DoorNotFound` carrying
    /// the id when no outgoing door does.
    pub fn get_connected_room(&self, room_index: usize, door_id: &str) -> (r: FloorPlanResult<
        Room,
    >)
        requires
            self.wf(),
        ensures
            match find_door(
                crate::graph_store::outgoing_pairs(self@.doors, room_index as int),
                door_id@,
            ) {
                Some(p) => r matches Ok(room) && room == self@.rooms[p.1 as int],
                None => r matches Err(e) && (e matches FloorPlanError::DoorNotFound(s) && s@
                    == door_id@),
            },
    {
        let n = crate::graph_store::graph_node_count(&self.graph);
        if room_index >= n {
            proof {
                self.lemma_no_outgoing(room_index as int);
            }
            return Err(FloorPlanError::DoorNotFound(door_id.to_owned()));
        }
        let pairs = crate::graph_store::graph_edges_from(&self.graph, room_index);
        let m = pairs.len();
        proof {
            assert(pairs@.subrange(0, m as int) =~= pairs@);
        }
        let mut i: usize = 0;
        while i < m
            invariant
                self.wf(),
                m == pairs.len(),
                0 <= i <= m,
                pairs@ == crate::graph_store::outgoing_pairs(self@.doors, room_index as int),
                find_door(pairs@, door_id@) == find_door(
                    pairs@.subrange(i as int, m as int),
                    door_id@,
                ),
            decreases m - i,
        {
            let sub = &pairs[i];
            proof {
                assert(pairs@.subrange(i as int, m as int)[0] == pairs@[i as int]);
            }
            if crate::text::str_eq(sub.0.id.as_str(), door_id) {
                proof {
                    self.lemma_outgoing_in_range(room_index as int);
                }
                let room = crate::graph_store::graph_node_weight(&self.graph, sub.1).clone();
                return Ok(room);
            }
            proof {
                assert(pairs@.subrange(i as int, m as int).drop_first() =~= pairs@.subrange(
                    i + 1,
                    m as int,
                ));
            }
            i += 1;
        }
        proof {
            assert(pairs@.subrange(m as int, m as int) =~= Seq::<(Door, usize)>::empty());
        }
        Err(FloorPlanError::DoorNotFound(door_id.to_owned()))
    }

    /// Every outgoing door of the room the id resolves to, each paired with
    /// the room behind it; `RoomNotFound` carrying the id when no room
    /// carries it.
    pub fn get_doors_and_connected_rooms(&self, room_id: &str) -> (r: FloorPlanResult<
        Vec<(Door, Room)>,
    >)
        requires
            self.wf(),
        ensures
            match r {
                Ok(v) => id_present(self@.rooms, room_id@) && ({
                    let out = crate::graph_store::outgoing_pairs(
                        self@.doors,
                        last_with_id(self@.rooms, room_id@).unwrap(),
                    );
                    &&& v@.len() == out.len()
                    &&& forall|k: int|
                        0 <= k < out.len() ==> (#[trigger] v@[k]).0 == out[k].0 && v@[k].1
                            == self@.rooms[out[k].1 as int]
                }),
                Err(e) => !id_present(self@.rooms, room_id@) && (e matches
                FloorPlanError::RoomNotFound(s) && s@ == room_id@),
            },
    {
        let ix = match self.get_room_idx_by_id(room_id) {
            Ok(ix) => ix,
            Err(e) => {
                return Err(e);
            },
        };
        proof {
            lemma_last_with_id_present(self@.rooms, room_id@);
            self.lemma_outgoing_in_range(ix as int);
        }
        let pairs = crate::graph_store::graph_edges_from(&self.graph, ix);
        let m = pairs.len();
        let mut out: Vec<(Door, Room)> = Vec::new();
        let mut i: usize = 0;
        while i < m
            invariant
                self.wf(),
                m == pairs.len(),
                0 <= i <= m,
                ix < self@.rooms.len(),
                pairs@ == crate::graph_store::outgoing_pairs(self@.doors, ix as int),
                forall|k: int|
                    0 <= k < pairs@.len() ==> (#[trigger] pairs@[k]).1 < self@.rooms.len(),
                out@.len() == i,
                forall|k: int|
                    0 <= k < i ==> (#[trigger] out@[k]).0 == pairs@[k].0 && out@[k].1
                        == self@.rooms[pairs@[k].1 as int],
            decreases m - i,
        {
            let door = pairs[i].0.clone();
            let room = crate::graph_store::graph_node_weight(&self.graph, pairs[i].1).clone();
            out.push((door, room));
            i += 1;
        }
        Ok(out)
    }

    /// No door leaves a node index at or beyond the room count.
    proof fn lemma_no_outgoing(&self, ix: int)
        requires
            self.wf(),
            ix >= self@.rooms.len(),
        ensures
            crate::graph_store::outgoing_pairs(self@.doors, ix) == Seq::<(Door, usize)>::empty(),
    {
        let pred = crate::graph_store::leaves_node(ix);
        assert forall|k: int| 0 <= k < self@.doors.len() implies !pred(#[trigger] self@.doors[k])
            by {
            assert(self@.doors[k].0 < self@.rooms.len());
        }
        lemma_filter_empty(self@.doors, pred);
        assert(crate::graph_store::outgoing_pairs(self@.doors, ix) =~= Seq::<(
            Door,
            usize,
        )>::empty());
    }
}

/// The projection of a room to its abstract value.
pub open spec fn room_view_of() -> spec_fn(Room) -> RoomView {
    |r: Room| r@
}

/// The abstract values of a room sequence.
pub open spec fn room_views(rooms: Seq<Room>) -> Seq<RoomView> {
    rooms.map_values(room_view_of())
}

/// The abstract value of one stored door edge.
pub ghost struct EdgeView {
    pub from: int,
    pub to: int,
    pub door: DoorView,
}

/// The projection of a stored door edge to its abstract value.
pub open spec fn edge_view_of() -> spec_fn((usize, usize, Door)) -> EdgeView {
    |e: (usize, usize, Door)| EdgeView { from: e.0 as int, to: e.1 as int, door: e.2@ }
}

/// The abstract values of a door edge sequence.
pub open spec fn edge_views(doors: Seq<(usize, usize, Door)>) -> Seq<EdgeView> {
    doors.map_values(edge_view_of())
}

/// Whether some room view in `rooms` carries the id `id`.
pub open spec fn id_present_v(rooms: Seq<RoomView>, id: Seq<char>) -> bool {
    exists|i: int| 0 <= i < rooms.len() && rooms[i].id == id
}

/// The index of the most recently added room view carrying `id`, if any.
pub open spec fn last_with_id_v(rooms: Seq<RoomView>, id: Seq<char>) -> Option<int>
    decreases rooms.len(),
{
    if rooms.len() == 0 {
        None
    } else if rooms.last().id == id {
        Some(rooms.len() - 1)
    } else {
        last_with_id_v(rooms.drop_last(), id)
    }
}

/// Lookups on a room sequence and on its view sequence agree.
pub proof fn lemma_last_with_id_views(rooms: Seq<Room>, id: Seq<char>)
    ensures
        last_with_id_v(room_views(rooms), id) == last_with_id(rooms, id),
        id_present_v(room_views(rooms), id) == id_present(rooms, id),
    decreases rooms.len(),
{
    let rv = room_views(rooms);
    assert(rv.len() == rooms.len());
    if rooms.len() > 0 {
        lemma_last_with_id_views(rooms.drop_last(), id);
        assert(room_views(rooms.drop_last()) =~= rv.drop_last());
        assert(rv.last() == rooms.last()@);
    }
    if id_present(rooms, id) {
        let i = choose|i: int| 0 <= i < rooms.len() && rooms[i].id@ == id;
        assert(rv[i].id == id);
    }
    if id_present_v(rv, id) {
        let i = choose|i: int| 0 <= i < rv.len() && rv[i].id == id;
        assert(rooms[i].id@ == id);
    }
}

/// The set of id views the index has entries for.
pub open spec fn index_key_set(index: Seq<(String, usize)>) -> Set<Seq<char>> {
    Set::new(|id: Seq<char>| index_has_key(index, id))
}

/// The set of id views carried by the rooms.
pub open spec fn room_id_set(rooms: Seq<Room>) -> Set<Seq<char>> {
    Set::new(|id: Seq<char>| id_present(rooms, id))
}

impl FloorPlan {
    /// Whether every index key of `a` is an index key of `b`.
    fn keys_subset(a: &Vec<(String, usize)>, b: &Vec<(String, usize)>) -> (r: bool)
        ensures
            r == forall|k: int| 0 <= k < a@.len() ==> index_has_key(b@, (#[trigger] a@[k]).0@),
    {
        let n = a.len();
        let mut i: usize = 0;
        while i < n
            invariant
                n == a@.len(),
                0 <= i <= n,
                forall|k: int| 0 <= k < i ==> index_has_key(b@, (#[trigger] a@[k]).0@),
            decreases n - i,
        {
            let m = b.len();
            let mut j: usize = 0;
            let mut found = false;
            while j < m
                invariant
                    n == a@.len(),
                    m == b@.len(),
                    0 <= i < n,
                    0 <= j <= m,
                    found ==> index_has_key(b@, a@[i as int].0@),
                    !found ==> forall|k: int| 0 <= k < j ==> b@[k].0@ != a@[i as int].0@,
                decreases m - j,
            {
                if !found && crate::text::str_eq(b[j].0.as_str(), a[i].0.as_str()) {
                    found = true;
                }
                j += 1;
            }
            if !found {
                proof {
                    assert(!index_has_key(b@, a@[i as int].0@));
                }
                return false;
            }
            i += 1;
        }
        true
    }
}

impl PartialEq for FloorPlan {
    /// Two floorplans are the same plan when they index the same room ids
    /// and have the same start room; doors are not compared.  This is how
    /// a fresh compilation pass is told apart from a plan already shown.
    fn eq(&self, other: &FloorPlan) -> (r: bool) {
        let starts_equal = match (&self.start_room_id, &other.start_room_id) {
            (None, None) => true,
            (Some(a), Some(b)) => crate::text::str_eq(a.as_str(), b.as_str()),
            _ => false,
        };
        let r = starts_equal && FloorPlan::keys_subset(&self.room_index_map, &other.room_index_map)
            && FloorPlan::keys_subset(&other.room_index_map, &self.room_index_map);
        proof {
            let ka = index_key_set(self.room_index_map@);
            let kb = index_key_set(other.room_index_map@);
            if r {
                assert forall|id: Seq<char>| ka.contains(id) <==> kb.contains(id) by {
                    if index_has_key(self.room_index_map@, id) {
                        let k = choose|k: int|
                            0 <= k < self.room_index_map@.len() && self.room_index_map@[k].0@
                                == id;
                        assert(index_has_key(other.room_index_map@, self.room_index_map@[k].0@));
                    }
                    if index_has_key(other.room_index_map@, id) {
                        let k = choose|k: int|
                            0 <= k < other.room_index_map@.len() && other.room_index_map@[k].0@
                                == id;
                        assert(index_has_key(self.room_index_map@, other.room_index_map@[k].0@));
                    }
                }
                assert(ka =~= kb);
            } else if starts_equal {
                if !FloorPlan::keys_subset_spec(self.room_index_map@, other.room_index_map@) {
                    let k = choose|k: int|
                        0 <= k < self.room_index_map@.len() && !index_has_key(
                            other.room_index_map@,
                            self.room_index_map@[k].0@,
                        );
                    assert(ka.contains(self.room_index_map@[k].0@));
                    assert(ka != kb);
                } else {
                    let k = choose|k: int|
                        0 <= k < other.room_index_map@.len() && !index_has_key(
                            self.room_index_map@,
                            other.room_index_map@[k].0@,
                        );
                    assert(kb.contains(other.room_index_map@[k].0@));
                    assert(ka != kb);
                }
            }
        }
        r
    }
}

impl vstd::std_specs::cmp::PartialEqSpecImpl for FloorPlan {
    open spec fn obeys_eq_spec() -> bool {
        true
    }

    closed spec fn eq_spec(&self, other: &FloorPlan) -> bool {
        &&& index_key_set(self.room_index_map@) == index_key_set(other.room_index_map@)
        &&& self@.start == other@.start
    }
}

impl FloorPlan {
    /// Ghost form of `keys_subset`'s answer, used while proving `eq`.
    spec fn keys_subset_spec(a: Seq<(String, usize)>, b: Seq<(String, usize)>) -> bool {
        forall|k: int| 0 <= k < a.len() ==> index_has_key(b, (#[trigger] a[k]).0@)
    }

    /// What `==` means for well-formed floorplans: the same set of room
    /// ids and the same start room id.
    pub proof fn lemma_eq_is_structural(&self, other: &FloorPlan)
        requires
            self.wf(),
            other.wf(),
        ensures
            self.eq_spec(other) <==> (room_id_set(self@.rooms) == room_id_set(other@.rooms)
                && self@.start == other@.start),
    {
        self.lemma_keys_are_room_ids();
        other.lemma_keys_are_room_ids();
    }

    /// In a well-formed plan the index keys are exactly the room ids.
    proof fn lemma_keys_are_room_ids(&self)
        requires
            self.wf(),
        ensures
            index_key_set(self.room_index_map@) == room_id_set(self@.rooms),
    {
        assert forall|id: Seq<char>|
            index_has_key(self.room_index_map@, id) <==> id_present(self@.rooms, id) by {
            if index_has_key(self.room_index_map@, id) {
                let k = choose|k: int|
                    0 <= k < self.room_index_map@.len() && self.room_index_map@[k].0@ == id;
                assert(index_entry_ok(self@.rooms, self.room_index_map@[k]));
                lemma_last_with_id_present(self@.rooms, id);
            }
            if id_present(self@.rooms, id) {
                let j = choose|j: int| 0 <= j < self@.rooms.len() && self@.rooms[j].id@ == id;
                assert(index_has_key(self.room_index_map@, self@.rooms[j].id@));
            }
        }
        assert(index_key_set(self.room_index_map@) =~= room_id_set(self@.rooms));
    }
}

/// The outgoing (door, target) pairs of the room `room_id` resolves to,
/// in lookup order: what `get_doors_and_connected_rooms` enumerates and
/// `get_connected_room` searches.
pub open spec fn outgoing_of(v: PlanView, room_id: Seq<char>) -> Seq<(Door, usize)> {
    crate::graph_store::outgoing_pairs(v.doors, last_with_id(v.rooms, room_id).unwrap())
}

impl FloorPlan {
    /// Each (door, room) entry that `get_doors_and_connected_rooms`
    /// promises for a room is reachable through exactly its own door id:
    /// among that room's outgoing doors, looking the entry's door id up as
    /// `get_connected_room` does finds that entry and no other, provided
    /// the room's outgoing door ids are pairwise distinct.
    pub proof fn lemma_entry_reachable(&self, room_id: Seq<char>, k: int)
        requires
            self.wf(),
            id_present(self@.rooms, room_id),
            forall|k1: int, k2: int|
                0 <= k1 < k2 < outgoing_of(self@, room_id).len() ==> (#[trigger] outgoing_of(
                    self@,
                    room_id,
                )[k1]).0.id@ != (#[trigger] outgoing_of(self@, room_id)[k2]).0.id@,
            0 <= k < outgoing_of(self@, room_id).len(),
        ensures
            find_door(outgoing_of(self@, room_id), outgoing_of(self@, room_id)[k].0.id@) == Some(
                outgoing_of(self@, room_id)[k],
            ),
    {
        lemma_find_door_distinct(outgoing_of(self@, room_id), k);
    }
}

/// For a sequence of (door, target) pairs with pairwise distinct door ids,
/// looking up pair `k`'s door id finds pair `k` itself: the paired room is
/// reachable through exactly that door id.
pub proof fn lemma_find_door_distinct(pairs: Seq<(Door, usize)>, k: int)
    requires
        forall|k1: int, k2: int|
            0 <= k1 < k2 < pairs.len() ==> (#[trigger] pairs[k1]).0.id@ != (
            #[trigger] pairs[k2]).0.id@,
        0 <= k < pairs.len(),
    ensures
        find_door(pairs, pairs[k].0.id@) == Some(pairs[k]),
    decreases pairs.len(),
{
    if k > 0 {
        assert(pairs[0].0.id@ != pairs[k].0.id@);
        lemma_find_door_distinct(pairs.drop_first(), k - 1);
        assert(pairs.drop_first()[k - 1] == pairs[k]);
    }
}

/// Every element of a filtered sequence is an element of the sequence it
/// was filtered from.
pub proof fn lemma_filter_element_of<A>(s: Seq<A>, pred: spec_fn(A) -> bool, i: int)
    requires
        0 <= i < s.filter(pred).len(),
    ensures
        s.contains(s.filter(pred)[i]),
    decreases s.len(),
{
    reveal(Seq::filter);
    if s.len() > 0 {
        let f = s.filter(pred);
        let fd = s.drop_last().filter(pred);
        if pred(s.last()) && i == f.len() - 1 {
            assert(s[s.len() - 1] == f[i]);
        } else {
            lemma_filter_element_of(s.drop_last(), pred, i);
            let j = choose|j: int| 0 <= j < s.drop_last().len() && s.drop_last()[j] == fd[i];
            assert(s[j] == f[i]);
        }
    }
}

/// Filtering a sequence none of whose elements satisfies the predicate
/// yields the empty sequence.
proof fn lemma_filter_empty<A>(s: Seq<A>, pred: spec_fn(A) -> bool)
    requires
        forall|i: int| 0 <= i < s.len() ==> !pred(#[trigger] s[i]),
    ensures
        s.filter(pred) == Seq::<A>::empty(),
    decreases s.len(),
{
    reveal(Seq::filter);
    if s.len() > 0 {
        lemma_filter_empty(s.drop_last(), pred);
        assert(!pred(s.last()));
        assert(s.filter(pred) =~= Seq::<A>::empty());
    } else {
        assert(s.filter(pred) =~= Seq::<A>::empty());
    }
}

} // verus!
