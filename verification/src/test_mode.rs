//! Fixed demonstration floorplans of two, five and twenty-five rooms.

use vstd::prelude::*;
use vstd::string::StringExecFns;

use crate::floorplan::{
    edge_views, id_present, last_with_id, lemma_last_with_id_found, lemma_last_with_id_present,
    room_views, Door, DoorView, EdgeView, FloorPlan, FloorPlanError, FloorPlanResult, Room,
    RoomView,
};
use crate::text::{dec_str, lemma_dec_str_injective};

verus! {

/// The view of demonstration room `i`.
pub open spec fn test_room_v(i: nat) -> RoomView {
    RoomView { id: dec_str(i), name: "Room "@ + dec_str(i) }
}

/// The view of demonstration door `i`.
pub open spec fn test_door_v(i: nat) -> DoorView {
    DoorView { id: dec_str(i), name: "Door "@ + dec_str(i), is_exit: false }
}

/// One demonstration edge: door `d` from room `from` to room `to`.
pub open spec fn test_edge_v(from: int, to: int, d: nat) -> EdgeView {
    EdgeView { from, to, door: test_door_v(d) }
}

/// Rooms numbered `0` up to `lim`, in order.
pub fn create_rooms(lim: u8) -> (r: Vec<Room>)
    ensures
        r@.len() == lim as int,
        forall|i: int| 0 <= i < lim as int ==> (#[trigger] r@[i])@ == test_room_v(i as nat),
{
    let mut out: Vec<Room> = Vec::new();
    let mut i: u8 = 0;
    while i < lim
        invariant
            0 <= i <= lim,
            out@.len() == i as int,
            forall|k: int| 0 <= k < i as int ==> (#[trigger] out@[k])@ == test_room_v(k as nat),
        decreases lim - i,
    {
        let id = crate::text::u8_to_string(i);
        let mut name = "Room ".to_owned();
        name.append(id.as_str());
        out.push(Room { id, name });
        i += 1;
    }
    out
}

/// Doors numbered `0` up to `lim`, in order, none an exit.
pub fn create_doors(lim: u8) -> (r: Vec<Door>)
    ensures
        r@.len() == lim as int,
        forall|i: int| 0 <= i < lim as int ==> (#[trigger] r@[i])@ == test_door_v(i as nat),
{
    let mut out: Vec<Door> = Vec::new();
    let mut i: u8 = 0;
    while i < lim
        invariant
            0 <= i <= lim,
            out@.len() == i as int,
            forall|k: int| 0 <= k < i as int ==> (#[trigger] out@[k])@ == test_door_v(k as nat),
        decreases lim - i,
    {
        let id = crate::text::u8_to_string(i);
        let mut name = "Door ".to_owned();
        name.append(id.as_str());
        out.push(Door { id, name, is_exit: false });
        i += 1;
    }
    out
}

/// Adds one copy of the door from the first room to the second, both found
/// by id; `RoomNotFound` carrying the first missing id otherwise.
pub fn door_adder(plan: &mut FloorPlan, room1: &Room, room2: &Room, door: &Door) -> (r:
    FloorPlanResult<()>)
    requires
        old(plan).wf(),
        old(plan)@.doors.len() + 1 < 0xFFFF_FFFFusize,
    ensures
        final(plan).wf(),
        final(plan)@.rooms == old(plan)@.rooms,
        final(plan)@.start == old(plan)@.start,
        match r {
            Ok(()) => id_present(old(plan)@.rooms, room1.id@) && id_present(
                old(plan)@.rooms,
                room2.id@,
            ) && final(plan)@.doors.len() == old(plan)@.doors.len() + 1 && edge_views(
                final(plan)@.doors,
            ) == edge_views(old(plan)@.doors).push(
                EdgeView {
                    from: last_with_id(old(plan)@.rooms, room1.id@).unwrap(),
                    to: last_with_id(old(plan)@.rooms, room2.id@).unwrap(),
                    door: door@,
                },
            ),
            Err(e) => final(plan)@.doors == old(plan)@.doors && !(id_present(
                old(plan)@.rooms,
                room1.id@,
            ) && id_present(old(plan)@.rooms, room2.id@)) && (e matches
            FloorPlanError::RoomNotFound(s) && s@ == if !id_present(old(plan)@.rooms, room1.id@) {
                room1.id@
            } else {
                room2.id@
            }),
        },
{
    let i1 = match plan.get_room_idx_by_id(room1.id.as_str()) {
        Ok(ix) => ix,
        Err(e) => {
            proof {
                lemma_last_with_id_present(plan@.rooms, room1.id@);
            }
            return Err(e);
        },
    };
    let i2 = match plan.get_room_idx_by_id(room2.id.as_str()) {
        Ok(ix) => ix,
        Err(e) => {
            proof {
                lemma_last_with_id_present(plan@.rooms, room1.id@);
                lemma_last_with_id_present(plan@.rooms, room2.id@);
            }
            return Err(e);
        },
    };
    proof {
        lemma_last_with_id_present(plan@.rooms, room1.id@);
        lemma_last_with_id_present(plan@.rooms, room2.id@);
    }
    plan.add_door(i1, i2, door.clone());
    proof {
        assert(edge_views(plan@.doors) =~= edge_views(old(plan)@.doors).push(
            EdgeView { from: i1 as int, to: i2 as int, door: door@ },
        ));
    }
    Ok(())
}

/// The views of rooms numbered `0` up to `n`.
pub open spec fn numbered_rooms(n: int) -> Seq<RoomView> {
    Seq::new(n as nat, |k: int| test_room_v(k as nat))
}

/// In a plan holding rooms numbered `0` up to `n`, the id of room `k`
/// resolves to node `k`.
proof fn lemma_numbered_rooms_lookup(rooms: Seq<Room>, n: int)
    requires
        rooms.len() == n,
        forall|i: int| 0 <= i < n ==> (#[trigger] rooms[i])@ == test_room_v(i as nat),
    ensures
        forall|k: int|
            0 <= k < n ==> #[trigger] last_with_id(rooms, dec_str(k as nat)) == Some(k)
                && id_present(rooms, dec_str(k as nat)),
{
    assert forall|k: int|
        0 <= k < n implies #[trigger] last_with_id(rooms, dec_str(k as nat)) == Some(k)
        && id_present(rooms, dec_str(k as nat)) by {
        assert(rooms[k].id@ == dec_str(k as nat));
        assert forall|j: int| k < j < n implies rooms[j].id@ != dec_str(k as nat) by {
            lemma_dec_str_injective(j as nat, k as nat);
        }
        lemma_last_with_id_found(rooms, dec_str(k as nat), k);
    }
}

/// A plan of two rooms joined by one door each way.
pub fn generate_room2_floorplan() -> (r: FloorPlanResult<FloorPlan>)
    ensures
        r matches Ok(plan) && ({
            &&& plan.wf()
            &&& room_views(plan@.rooms) == numbered_rooms(2)
            &&& edge_views(plan@.doors) == seq![test_edge_v(0, 1, 0), test_edge_v(1, 0, 1)]
            &&& plan@.start == Some(dec_str(0))
        }),
{
    let mut floorplan = FloorPlan::new();
    let rooms = create_rooms(2);

    floorplan.add_room(rooms[0].clone());
    floorplan.add_room(rooms[1].clone());
    proof {
        assert(room_views(floorplan@.rooms) =~= numbered_rooms(2));
        lemma_numbered_rooms_lookup(floorplan@.rooms, 2);
    }

    let doors = create_doors(2);

    door_adder(&mut floorplan, &rooms[0], &rooms[1], &doors[0])?;
    door_adder(&mut floorplan, &rooms[1], &rooms[0], &doors[1])?;

    proof {
        assert(edge_views(floorplan@.doors) =~= seq![test_edge_v(0, 1, 0), test_edge_v(1, 0, 1)]);
    }
    Ok(floorplan)
}

/// A plan of five rooms joined pairwise along a small tree.
pub fn generate_room5_floorplan() -> (r: FloorPlanResult<FloorPlan>)
    ensures
        r matches Ok(plan) && ({
            &&& plan.wf()
            &&& room_views(plan@.rooms) == numbered_rooms(5)
            &&& edge_views(plan@.doors) == seq![
                test_edge_v(0, 1, 0),
                test_edge_v(1, 0, 1),
                test_edge_v(1, 2, 2),
                test_edge_v(2, 1, 3),
                test_edge_v(1, 3, 4),
                test_edge_v(3, 1, 5),
                test_edge_v(3, 4, 6),
                test_edge_v(4, 3, 7),
            ]
            &&& plan@.start == Some(dec_str(0))
        }),
{
    let mut floorplan = FloorPlan::new();

    let rooms = create_rooms(5);

    floorplan.add_room(rooms[0].clone());
    floorplan.add_room(rooms[1].clone());
    floorplan.add_room(rooms[2].clone());
    floorplan.add_room(rooms[3].clone());
    floorplan.add_room(rooms[4].clone());
    proof {
        assert(room_views(floorplan@.rooms) =~= numbered_rooms(5));
        lemma_numbered_rooms_lookup(floorplan@.rooms, 5);
    }

    let doors = create_doors(10);

    door_adder(&mut floorplan, &rooms[0], &rooms[1], &doors[0])?;
    door_adder(&mut floorplan, &rooms[1], &rooms[0], &doors[1])?;

    door_adder(&mut floorplan, &rooms[1], &rooms[2], &doors[2])?;
    door_adder(&mut floorplan, &rooms[2], &rooms[1], &doors[3])?;

    door_adder(&mut floorplan, &rooms[1], &rooms[3], &doors[4])?;
    door_adder(&mut floorplan, &rooms[3], &rooms[1], &doors[5])?;

    door_adder(&mut floorplan, &rooms[3], &rooms[4], &doors[6])?;
    door_adder(&mut floorplan, &rooms[4], &rooms[3], &doors[7])?;

    proof {
        assert(edge_views(floorplan@.doors) =~= seq![
            test_edge_v(0, 1, 0),
            test_edge_v(1, 0, 1),
            test_edge_v(1, 2, 2),
            test_edge_v(2, 1, 3),
            test_edge_v(1, 3, 4),
            test_edge_v(3, 1, 5),
            test_edge_v(3, 4, 6),
            test_edge_v(4, 3, 7),
        ]);
    }
    Ok(floorplan)
}

/// The door edges of the twenty-five room plan, in insertion order.  Two
/// quirks of the fixture are kept: door `31` hangs on two connections, and
/// rooms `9` and `11` are joined by two full pairs.
pub open spec fn room25_edges() -> Seq<EdgeView> {
    seq![
        test_edge_v(0, 1, 0),
        test_edge_v(1, 0, 1),
        test_edge_v(0, 2, 2),
        test_edge_v(2, 0, 3),
        test_edge_v(1, 3, 4),
        test_edge_v(3, 1, 5),
        test_edge_v(2, 3, 6),
        test_edge_v(3, 2, 7),
        test_edge_v(2, 4, 8),
        test_edge_v(4, 2, 9),
        test_edge_v(3, 5, 10),
        test_edge_v(5, 3, 11),
        test_edge_v(3, 6, 12),
        test_edge_v(6, 3, 13),
        test_edge_v(3, 7, 14),
        test_edge_v(7, 3, 15),
        test_edge_v(3, 8, 16),
        test_edge_v(8, 3, 17),
        test_edge_v(8, 9, 18),
        test_edge_v(9, 8, 19),
        test_edge_v(9, 10, 20),
        test_edge_v(10, 9, 21),
        test_edge_v(9, 11, 22),
        test_edge_v(11, 9, 23),
        test_edge_v(11, 12, 24),
        test_edge_v(12, 11, 25),
        test_edge_v(11, 13, 26),
        test_edge_v(13, 11, 27),
        test_edge_v(11, 14, 28),
        test_edge_v(14, 11, 29),
        test_edge_v(11, 15, 30),
        test_edge_v(15, 11, 31),
        test_edge_v(11, 16, 32),
        test_edge_v(16, 11, 33),
        test_edge_v(11, 17, 34),
        test_edge_v(17, 11, 31),
        test_edge_v(11, 18, 35),
        test_edge_v(18, 11, 36),
        test_edge_v(11, 19, 37),
        test_edge_v(19, 11, 38),
        test_edge_v(19, 20, 39),
        test_edge_v(20, 19, 40),
        test_edge_v(20, 21, 41),
        test_edge_v(21, 20, 42),
        test_edge_v(20, 22, 43),
        test_edge_v(22, 20, 44),
        test_edge_v(20, 23, 45),
        test_edge_v(23, 20, 46),
        test_edge_v(23, 24, 47),
        test_edge_v(24, 23, 48),
        test_edge_v(9, 11, 49),
        test_edge_v(11, 9, 50),
    ]
}

/// A plan of twenty-five rooms joined along a fixed maze.
#[verifier::rlimit(50)]
pub fn generate_room25_floorplan() -> (r: FloorPlanResult<FloorPlan>)
    ensures
        r matches Ok(plan) && ({
            &&& plan.wf()
            &&& room_views(plan@.rooms) == numbered_rooms(25)
            &&& edge_views(plan@.doors) == room25_edges()
            &&& plan@.start == Some(dec_str(0))
        }),
{
    let mut floorplan = FloorPlan::new();

    let rooms = create_rooms(25);

    let n = rooms.len();
    let mut i: usize = 0;
    while i < n
        invariant
            floorplan.wf(),
            n == 25,
            rooms@.len() == 25,
            forall|k: int| 0 <= k < 25 ==> (#[trigger] rooms@[k])@ == test_room_v(k as nat),
            0 <= i <= n,
            floorplan@.rooms.len() == i,
            forall|k: int|
                0 <= k < i ==> (#[trigger] floorplan@.rooms[k])@ == test_room_v(k as nat),
            floorplan@.doors.len() == 0,
            if i > 0 {
                floorplan@.start == Some(dec_str(0))
            } else {
                floorplan@.start is None
            },
        decreases n - i,
    {
        floorplan.add_room(rooms[i].clone());
        i += 1;
    }
    proof {
        assert(room_views(floorplan@.rooms) =~= numbered_rooms(25));
        assert(edge_views(floorplan@.doors) =~= Seq::<EdgeView>::empty());
        lemma_numbered_rooms_lookup(floorplan@.rooms, 25);
    }

    let doors = create_doors(60);

    door_adder(&mut floorplan, &rooms[0], &rooms[1], &doors[0])?;
    door_adder(&mut floorplan, &rooms[1], &rooms[0], &doors[1])?;

    door_adder(&mut floorplan, &rooms[0], &rooms[2], &doors[2])?;
    door_adder(&mut floorplan, &rooms[2], &rooms[0], &doors[3])?;

    door_adder(&mut floorplan, &rooms[1], &rooms[3], &doors[4])?;
    door_adder(&mut floorplan, &rooms[3], &rooms[1], &doors[5])?;

    door_adder(&mut floorplan, &rooms[2], &rooms[3], &doors[6])?;
    door_adder(&mut floorplan, &rooms[3], &rooms[2], &doors[7])?;

    door_adder(&mut floorplan, &rooms[2], &rooms[4], &doors[8])?;
    door_adder(&mut floorplan, &rooms[4], &rooms[2], &doors[9])?;

    door_adder(&mut floorplan, &rooms[3], &rooms[5], &doors[10])?;
    door_adder(&mut floorplan, &rooms[5], &rooms[3], &doors[11])?;

    door_adder(&mut floorplan, &rooms[3], &rooms[6], &doors[12])?;
    door_adder(&mut floorplan, &rooms[6], &rooms[3], &doors[13])?;

    door_adder(&mut floorplan, &rooms[3], &rooms[7], &doors[14])?;
    door_adder(&mut floorplan, &rooms[7], &rooms[3], &doors[15])?;

    door_adder(&mut floorplan, &rooms[3], &rooms[8], &doors[16])?;
    door_adder(&mut floorplan, &rooms[8], &rooms[3], &doors[17])?;

    door_adder(&mut floorplan, &rooms[8], &rooms[9], &doors[18])?;
    door_adder(&mut floorplan, &rooms[9], &rooms[8], &doors[19])?;

    door_adder(&mut floorplan, &rooms[9], &rooms[10], &doors[20])?;
    door_adder(&mut floorplan, &rooms[10], &rooms[9], &doors[21])?;

    door_adder(&mut floorplan, &rooms[9], &rooms[11], &doors[22])?;
    door_adder(&mut floorplan, &rooms[11], &rooms[9], &doors[23])?;

    door_adder(&mut floorplan, &rooms[11], &rooms[12], &doors[24])?;
    door_adder(&mut floorplan, &rooms[12], &rooms[11], &doors[25])?;

    door_adder(&mut floorplan, &rooms[11], &rooms[13], &doors[26])?;
    door_adder(&mut floorplan, &rooms[13], &rooms[11], &doors[27])?;

    door_adder(&mut floorplan, &rooms[11], &rooms[14], &doors[28])?;
    door_adder(&mut floorplan, &rooms[14], &rooms[11], &doors[29])?;

    door_adder(&mut floorplan, &rooms[11], &rooms[15], &doors[30])?;
    door_adder(&mut floorplan, &rooms[15], &rooms[11], &doors[31])?;

    door_adder(&mut floorplan, &rooms[11], &rooms[16], &doors[32])?;
    door_adder(&mut floorplan, &rooms[16], &rooms[11], &doors[33])?;

    door_adder(&mut floorplan, &rooms[11], &rooms[17], &doors[34])?;
    door_adder(&mut floorplan, &rooms[17], &rooms[11], &doors[31])?;

    door_adder(&mut floorplan, &rooms[11], &rooms[18], &doors[35])?;
    door_adder(&mut floorplan, &rooms[18], &rooms[11], &doors[36])?;

    door_adder(&mut floorplan, &rooms[11], &rooms[19], &doors[37])?;
    door_adder(&mut floorplan, &rooms[19], &rooms[11], &doors[38])?;

    door_adder(&mut floorplan, &rooms[19], &rooms[20], &doors[39])?;
    door_adder(&mut floorplan, &rooms[20], &rooms[19], &doors[40])?;

    door_adder(&mut floorplan, &rooms[20], &rooms[21], &doors[41])?;
    door_adder(&mut floorplan, &rooms[21], &rooms[20], &doors[42])?;

    door_adder(&mut floorplan, &rooms[20], &rooms[22], &doors[43])?;
    door_adder(&mut floorplan, &rooms[22], &rooms[20], &doors[44])?;

    door_adder(&mut floorplan, &rooms[20], &rooms[23], &doors[45])?;
    door_adder(&mut floorplan, &rooms[23], &rooms[20], &doors[46])?;

    door_adder(&mut floorplan, &rooms[23], &rooms[24], &doors[47])?;
    door_adder(&mut floorplan, &rooms[24], &rooms[23], &doors[48])?;

    door_adder(&mut floorplan, &rooms[9], &rooms[11], &doors[49])?;
    door_adder(&mut floorplan, &rooms[11], &rooms[9], &doors[50])?;

    proof {
        assert(edge_views(floorplan@.doors) =~= room25_edges());
    }
    Ok(floorplan)
}

} // verus!
