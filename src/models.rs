//! Small pieces shared by the driving models.
use vstd::prelude::*;
use std::collections::VecDeque;
use crate::network::RoadNetwork;
use crate::search::is_car_turn;
use crate::types::{Distance, LaneID, TurnID};

verus! {

/// At all speeds, including at rest, cars keep at least this gap (8 m).
pub const FOLLOWING_DISTANCE: Distance = 8000;

/// Where an agent currently is: on a lane or inside a turn.
#[derive(Clone, Copy, Debug, PartialEq, Eq, Structural)]
pub enum On {
    Lane(LaneID),
    Turn(TurnID),
}

/// What a driving model decides for an agent in one step.
#[derive(Clone, Copy, Debug, PartialEq, Eq, Structural)]
pub enum Action {
    /// Done with the route.
    Vanish,
    /// Needs more time to cross the current place.
    Continue,
    /// Goes somewhere.
    Goto(On),
    /// Ready to go somewhere, but cannot yet.
    WaitFor(On),
}

/// The first car turn out of lane `from` that leads to the next lane of
/// `path`.
pub fn choose_turn(path: &VecDeque<LaneID>, waiting_for: &Option<On>, from: LaneID, map: &RoadNetwork) -> (r: TurnID)
    requires
        map.wf(),
        from < map.lanes@.len(),
        waiting_for is None,
        path@.len() > 0,
        exists|j: int|
            0 <= j < map.lanes@[from as int].car_turns@.len()
                && #[trigger] map.lanes@[from as int].car_turns@[j].id.dst == path@[0],
    ensures
        r.src == from,
        r.dst == path@[0],
        is_car_turn(*map, r),
        exists|j: int|
            0 <= j < map.lanes@[from as int].car_turns@.len() && map.lanes@[from as int].car_turns@[j].id == r
                && forall|i: int| 0 <= i < j ==> (#[trigger] map.lanes@[from as int].car_turns@[i]).id.dst != path@[0],
{
    proof {
        assert(map.lane_wf(from as int));
    }
    let next = path[0];
    let turns = &map.lanes[from].car_turns;
    let mut j: usize = 0;
    while j < turns.len()
        invariant
            from < map.lanes@.len(),
            map.lane_wf(from as int),
            turns == &map.lanes@[from as int].car_turns,
            next == path@[0],
            j <= turns@.len(),
            forall|i: int| 0 <= i < j ==> (#[trigger] turns@[i]).id.dst != next,
            exists|i: int| 0 <= i < turns@.len() && #[trigger] turns@[i].id.dst == next,
        decreases turns@.len() - j,
    {
        if turns[j].id.dst == next {
            proof {
                assert(map.lanes@[from as int].car_turns@[j as int] == turns@[j as int]);
            }
            return turns[j].id;
        }
        j = j + 1;
    }
    proof {
        let i = choose|i: int| 0 <= i < turns@.len() && #[trigger] turns@[i].id.dst == next;
        assert(turns@[i].id.dst != next);
    }
    turns[0].id
}

} // verus!
