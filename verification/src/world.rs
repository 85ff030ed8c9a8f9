//! The consumer's refresh decisions: what to do with each newly published
//! floorplan, and where the player starts in one.  The world rendering
//! itself stays outside; only the decisions are made here.

use vstd::prelude::*;
use vstd::std_specs::cmp::PartialEqSpec;

use crate::floorplan::{FloorPlan, Room};

verus! {

/// What the consumer does with an incoming floorplan.
#[derive(Debug, Clone, Copy, PartialEq, Eq, Structural)]
pub enum RefreshDecision {
    /// No plan is shown yet: adopt this one and transition at once.
    Adopt,
    /// A meaningfully different plan arrived: stage it for the next
    /// transition, leaving the shown plan in place for now.
    Stage,
    /// The same plan, by room id set and start room: show nothing new.
    Keep,
}

/// The decision the consumer owes an incoming plan.
pub open spec fn expected_decision(current: Option<FloorPlan>, incoming: FloorPlan) -> RefreshDecision {
    match current {
        None => RefreshDecision::Adopt,
        Some(cur) => if cur.eq_spec(&incoming) {
            RefreshDecision::Keep
        } else {
            RefreshDecision::Stage
        },
    }
}

/// Decides what to do with one published floorplan: adopt the first plan
/// ever seen, stage one that differs from the current plan, and keep the
/// current plan when nothing meaningful changed.
pub fn process_floorplan_event(current: &Option<FloorPlan>, incoming: &FloorPlan) -> (r:
    RefreshDecision)
    ensures
        r == expected_decision(*current, *incoming),
{
    match current {
        None => RefreshDecision::Adopt,
        Some(cur) => {
            if cur == incoming {
                RefreshDecision::Keep
            } else {
                RefreshDecision::Stage
            }
        },
    }
}

/// Where the consumer places the player in a freshly adopted plan: its
/// start room, or nowhere in an empty plan.
pub fn determine_you_are_here(floorplan: &FloorPlan) -> (r: Option<Room>)
    requires
        floorplan.wf(),
    ensures
        match r {
            Some(room) => floorplan@.rooms.len() > 0 && (floorplan@.start matches Some(sid)
                && room.id@ == sid),
            None => floorplan@.rooms.len() == 0,
        },
{
    match floorplan.get_start_room() {
        Ok(room) => Some(room),
        Err(_) => None,
    }
}

} // verus!
