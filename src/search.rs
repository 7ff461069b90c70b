//! Best-first search of the lane graph for the nearest lane with a free spot.
use vstd::prelude::*;
use crate::free_spots::driving_pos_of;
use crate::network::RoadNetwork;
use crate::parking::ParkingSimState;
use crate::types::{BuildingID, LaneID, ParkingSpot, PathStep, Position, TurnID, Vehicle, MAX_DIST, MAX_LANES};

verus! {

/// Whether `t` is a turn that cars may take in `map`.
pub open spec fn is_car_turn(map: RoadNetwork, t: TurnID) -> bool {
    &&& t.src < map.lanes@.len()
    &&& exists|j: int|
        0 <= j < map.lanes@[t.src as int].car_turns@.len() && #[trigger] map.lanes@[t.src as int].car_turns@[j].id
            == t
}

/// The lane reached after the first `k` turns of `steps`, starting at `start`.
pub open spec fn lane_at(start: LaneID, steps: Seq<PathStep>, k: int) -> LaneID {
    if k == 0 {
        start
    } else {
        steps[2 * k - 1]->Lane_0
    }
}

/// Step pair `k` of `steps` is a car turn out of the lane reached so far,
/// followed by the lane it leads to.
pub open spec fn route_step_ok(map: RoadNetwork, start: LaneID, steps: Seq<PathStep>, k: int) -> bool {
    &&& steps[2 * k] is Turn
    &&& is_car_turn(map, steps[2 * k]->Turn_0)
    &&& steps[2 * k]->Turn_0.src == lane_at(start, steps, k)
    &&& steps[2 * k + 1] == PathStep::Lane(steps[2 * k]->Turn_0.dst)
}

/// `steps` is a drivable route out of lane `start`: turns and lanes in turn,
/// the starting lane itself left out.
pub open spec fn valid_route(map: RoadNetwork, start: LaneID, steps: Seq<PathStep>) -> bool {
    &&& steps.len() % 2 == 0
    &&& forall|k: int| 0 <= k < steps.len() / 2 ==> #[trigger] route_step_ok(map, start, steps, k)
}

/// The lane where a route ends.
pub open spec fn route_end(start: LaneID, steps: Seq<PathStep>) -> LaneID {
    lane_at(start, steps, steps.len() as int / 2)
}

/// Whether any spot is offered at the start of lane `l`.
pub open spec fn lane_has_offer(
    st: ParkingSimState,
    map: RoadNetwork,
    l: LaneID,
    vehicle: Vehicle,
    target: BuildingID,
) -> bool {
    exists|s: ParkingSpot| #[trigger] st.offers(map, Position { lane: l, dist_along: 0 }, vehicle, target, s)
}

/// Turn `t` out of an explored lane first reached its destination: the
/// destination's distance is the source's plus the source lane's length plus
/// the turn's length.
pub open spec fn reached_through(map: RoadNetwork, explored: Set<LaneID>, d: Seq<int>, t: TurnID) -> bool {
    &&& explored.contains(t.src)
    &&& t.src < map.lanes@.len()
    &&& exists|j: int|
        0 <= j < map.lanes@[t.src as int].car_turns@.len() && #[trigger] map.lanes@[t.src as int].car_turns@[j].id
            == t && d[t.dst as int] == d[t.src as int] + map.lanes@[t.src as int].length
            + map.lanes@[t.src as int].car_turns@[j].length
}

/// A state of a nearest-first search from `start` that stops at lane `end`:
/// `explored` holds the lanes already expanded (none of them but `start`
/// offers a spot), `reached` the lanes found so far, each with the distance
/// `d` at which it was first reached, and `end` comes first by (distance,
/// lane) among the reached lanes not expanded yet.
pub open spec fn nearest_first(
    st: ParkingSimState,
    map: RoadNetwork,
    start: LaneID,
    vehicle: Vehicle,
    target: BuildingID,
    end: LaneID,
    d: Seq<int>,
    explored: Set<LaneID>,
    reached: Set<LaneID>,
) -> bool {
    let n = map.lanes@.len();
    &&& d.len() == n
    &&& d[start as int] == 0
    &&& explored.contains(start)
    &&& forall|x: LaneID| #[trigger] reached.contains(x) ==> x < n
    &&& forall|x: LaneID| #[trigger] explored.contains(x) ==> reached.contains(x)
    &&& reached.contains(end)
    &&& !explored.contains(end)
    &&& forall|x: LaneID, j: int|
        #![trigger explored.contains(x), map.lanes@[x as int].car_turns@[j]]
        explored.contains(x) && 0 <= j < map.lanes@[x as int].car_turns@.len() ==> reached.contains(
            map.lanes@[x as int].car_turns@[j].id.dst,
        )
    &&& forall|x: LaneID|
        #[trigger] explored.contains(x) && x != start ==> !lane_has_offer(st, map, x, vehicle, target)
    &&& forall|x: LaneID|
        #[trigger] reached.contains(x) && x != start ==> exists|t: TurnID|
            t.dst == x && #[trigger] reached_through(map, explored, d, t)
    &&& forall|z: LaneID|
        #[trigger] reached.contains(z) && !explored.contains(z) && z != start ==> d[end as int] < d[z as int]
            || (d[end as int] == d[z as int] && end <= z)
}

/// The turn of step pair `k` of a route.
pub open spec fn route_turn(steps: Seq<PathStep>, k: int) -> TurnID {
    steps[2 * k]->Turn_0
}

/// Every turn of the route is the one that first reached its destination.
pub open spec fn follows_first_reach(map: RoadNetwork, explored: Set<LaneID>, d: Seq<int>, steps: Seq<PathStep>) -> bool {
    forall|k: int| 0 <= k < steps.len() / 2 ==> reached_through(map, explored, d, #[trigger] route_turn(steps, k))
}

/// Number of lanes not reached yet.
pub open spec fn count_unset(s: Seq<Option<TurnID>>) -> nat
    decreases s.len(),
{
    if s.len() == 0 {
        0
    } else {
        count_unset(s.drop_last()) + if s.last() is None {
            1nat
        } else {
            0nat
        }
    }
}

proof fn lemma_count_unset_set(s: Seq<Option<TurnID>>, i: int, t: TurnID)
    requires
        0 <= i < s.len(),
        s[i] is None,
    ensures
        count_unset(s.update(i, Some(t))) + 1 == count_unset(s),
    decreases s.len(),
{
    let u = s.update(i, Some(t));
    if i == s.len() - 1 {
        assert(u.drop_last() =~= s.drop_last());
    } else {
        assert(u.drop_last() =~= s.drop_last().update(i, Some(t)));
        lemma_count_unset_set(s.drop_last(), i, t);
    }
}

proof fn lemma_count_unset_bound(s: Seq<Option<TurnID>>)
    ensures
        count_unset(s) <= s.len(),
    decreases s.len(),
{
    if s.len() > 0 {
        lemma_count_unset_bound(s.drop_last());
    }
}

proof fn lemma_count_unset_all(n: nat)
    ensures
        count_unset(Seq::new(n, |i: int| None::<TurnID>)) == n,
    decreases n,
{
    if n > 0 {
        assert(Seq::new(n, |i: int| None::<TurnID>).drop_last() =~= Seq::new((n - 1) as nat, |i: int| None::<TurnID>));
        lemma_count_unset_all((n - 1) as nat);
    }
}

/// Bound on the length of one search step: a lane and a turn.
pub const STEP_MAX: u64 = 2 * MAX_DIST;

proof fn lemma_dist_bound(counter: int, d: int, step: int)
    requires
        0 <= counter < MAX_LANES + 1,
        0 <= d <= counter * STEP_MAX,
        0 <= step <= STEP_MAX,
    ensures
        d + step <= (counter + 1) * STEP_MAX,
        (counter + 1) * STEP_MAX <= (MAX_LANES + 1) * STEP_MAX,
{
    assert((counter + 1) * STEP_MAX == counter * STEP_MAX + STEP_MAX) by (nonlinear_arith);
    assert((counter + 1) * STEP_MAX <= (MAX_LANES + 1) * STEP_MAX) by (nonlinear_arith)
        requires
            counter + 1 <= MAX_LANES + 1,
    ;
}

/// Removes and returns the queue entry with the smallest distance, the
/// smallest lane breaking ties.
fn pop_min(queue: &mut Vec<(u64, LaneID)>) -> (r: (u64, LaneID))
    requires
        old(queue)@.len() > 0,
    ensures
        exists|i: int|
            0 <= i < old(queue)@.len() && old(queue)@[i] == r && final(queue)@ == old(queue)@.remove(i),
        forall|k: int|
            0 <= k < old(queue)@.len() ==> r.0 < (#[trigger] old(queue)@[k]).0 || (r.0 == old(queue)@[k].0
                && r.1 <= old(queue)@[k].1),
{
    let mut best: usize = 0;
    let mut k: usize = 1;
    while k < queue.len()
        invariant
            queue@ == old(queue)@,
            0 <= best < queue@.len(),
            1 <= k <= queue@.len(),
            forall|j: int|
                0 <= j < k ==> queue@[best as int].0 < (#[trigger] queue@[j]).0 || (queue@[best as int].0
                    == queue@[j].0 && queue@[best as int].1 <= queue@[j].1),
        decreases queue@.len() - k,
    {
        if queue[k].0 < queue[best].0 || (queue[k].0 == queue[best].0 && queue[k].1 < queue[best].1) {
            best = k;
        }
        k = k + 1;
    }
    queue.remove(best)
}

/// Lane `x` has been reached: it is the start or has a back-reference.
pub open spec fn reached(b: Seq<Option<TurnID>>, start: LaneID, x: LaneID) -> bool {
    x == start || (x < b.len() && b[x as int] is Some)
}

/// Back-references name car turns into their lane, from a lane reached
/// earlier (of smaller rank).
pub open spec fn backrefs_ok(
    map: RoadNetwork,
    start: LaneID,
    b: Seq<Option<TurnID>>,
    rank: Seq<nat>,
    counter: nat,
) -> bool {
    let n = map.lanes@.len();
    &&& b.len() == n
    &&& rank.len() == n
    &&& start < n
    &&& rank[start as int] == 0
    &&& counter + count_unset(b) == n
    &&& forall|x: LaneID| x < n && #[trigger] reached(b, start, x) ==> rank[x as int] <= counter
    &&& forall|x: int|
        0 <= x < n && (#[trigger] b[x]) is Some ==> {
            let t = b[x]->Some_0;
            &&& t.dst == x
            &&& is_car_turn(map, t)
            &&& reached(b, start, t.src)
            &&& (x != start ==> rank[t.src as int] < rank[x])
        }
}

proof fn lemma_route_reaches(map: RoadNetwork, start: LaneID, steps: Seq<PathStep>, v: Set<LaneID>, k: int)
    requires
        valid_route(map, start, steps),
        v.contains(start),
        forall|t: TurnID| #[trigger] is_car_turn(map, t) && v.contains(t.src) ==> v.contains(t.dst),
        0 <= k <= steps.len() / 2,
    ensures
        v.contains(lane_at(start, steps, k)),
    decreases k,
{
    if k > 0 {
        lemma_route_reaches(map, start, steps, v, k - 1);
        assert(route_step_ok(map, start, steps, k - 1));
        assert(2 * (k - 1) + 1 == 2 * k - 1);
    }
}

fn unset_row(n: usize) -> (r: Vec<Option<TurnID>>)
    ensures
        r@ == Seq::new(n as nat, |i: int| None::<TurnID>),
{
    let mut row: Vec<Option<TurnID>> = Vec::new();
    let mut i: usize = 0;
    while i < n
        invariant
            i <= n,
            row@ == Seq::new(i as nat, |j: int| None::<TurnID>),
        decreases n - i,
    {
        row.push(None);
        i = i + 1;
        assert(row@ =~= Seq::new(i as nat, |j: int| None::<TurnID>));
    }
    row
}

proof fn lemma_nearest_first_at_pop(
    st: ParkingSimState,
    map: RoadNetwork,
    start: LaneID,
    vehicle: Vehicle,
    target: BuildingID,
    b: Seq<Option<TurnID>>,
    q0: Seq<(u64, LaneID)>,
    popped: int,
    dist: Seq<int>,
    explored: Set<LaneID>,
)
    requires
        map.wf(),
        b.len() == map.lanes@.len(),
        0 <= popped < q0.len(),
        q0[popped].1 != start,
        forall|k: int|
            0 <= k < q0.len() ==> q0[popped].0 < (#[trigger] q0[k]).0 || (q0[popped].0 == q0[k].0
                && q0[popped].1 <= q0[k].1),
        forall|k: int| 0 <= k < q0.len() ==> (#[trigger] q0[k]).1 < b.len() && reached(b, start, q0[k].1),
        forall|x: int|
            0 <= x < b.len() && (#[trigger] b[x]) is Some ==> b[x]->Some_0.dst == x,
        forall|x: LaneID|
            #[trigger] explored.contains(x) ==> {
                &&& x < b.len()
                &&& reached(b, start, x)
                &&& forall|j: int|
                    0 <= j < map.lanes@[x as int].car_turns@.len() ==> b[
                        (#[trigger] map.lanes@[x as int].car_turns@[j]).id.dst as int] is Some
                &&& (x != start ==> !lane_has_offer(st, map, x, vehicle, target))
            },
        forall|x: LaneID|
            x < b.len() && #[trigger] reached(b, start, x) ==> explored.contains(x) || exists|k: int|
                0 <= k < q0.len() && q0[k].1 == x,
        dist.len() == b.len(),
        dist[start as int] == 0,
        forall|x: int|
            0 <= x < b.len() && x != start && (#[trigger] b[x]) is Some ==> reached_through(map, explored, dist, b[x]->Some_0),
        forall|k: int|
            0 <= k < q0.len() ==> ((#[trigger] q0[k]).1 != start ==> q0[k].0 == dist[q0[k].1 as int]
                && !explored.contains(q0[k].1)),
        explored.contains(start) || forall|k: int| 0 <= k < q0.len() ==> (#[trigger] q0[k]).1 == start,
    ensures
        nearest_first(st, map, start, vehicle, target, q0[popped].1, dist, explored,
            Set::new(|x: LaneID| x < map.lanes@.len() && reached(b, start, x))),
{
    let current = q0[popped].1;
    let rr = Set::new(|x: LaneID| x < map.lanes@.len() && reached(b, start, x));
    assert(q0[popped].1 != start);
    assert(explored.contains(start));
    assert(!explored.contains(current));
    assert forall|x: LaneID| #[trigger] rr.contains(x) && x != start implies exists|t: TurnID|
        t.dst == x && #[trigger] reached_through(map, explored, dist, t) by {
        assert(b[x as int] is Some);
        let t = b[x as int]->Some_0;
        assert(reached_through(map, explored, dist, t));
    }
    assert forall|z: LaneID| #[trigger] rr.contains(z) && !explored.contains(z) && z != start implies dist[current as int] < dist[z as int]
        || (dist[current as int] == dist[z as int] && current <= z) by {
        assert(reached(b, start, z));
        if z != current {
            let k = choose|k: int| 0 <= k < q0.len() && q0[k].1 == z;
            assert(q0[k].0 == dist[z as int]);
        }
    }
    assert forall|x: LaneID, j: int|
        #![trigger explored.contains(x), map.lanes@[x as int].car_turns@[j]]
        explored.contains(x) && 0 <= j < map.lanes@[x as int].car_turns@.len() implies rr.contains(
            map.lanes@[x as int].car_turns@[j].id.dst) by {
        assert(map.lane_wf(x as int));
    }
}

impl ParkingSimState {
    /// Picks the spot of `cands` reached first along lane `current` and
    /// builds the route to `current` from the back-references.
    fn found_route(
        &self,
        start: LaneID,
        current: LaneID,
        cands: Vec<(ParkingSpot, Position)>,
        backrefs: &Vec<Option<TurnID>>,
        rank: Ghost<Seq<nat>>,
        counter: Ghost<nat>,
        dist: Ghost<Seq<int>>,
        explored: Ghost<Set<LaneID>>,
        vehicle: &Vehicle,
        target: BuildingID,
        map: &RoadNetwork,
    ) -> (r: Option<(Vec<PathStep>, ParkingSpot, Position)>)
        requires
            backrefs_ok(*map, start, backrefs@, rank@, counter@),
            current < map.lanes@.len(),
            current != start,
            reached(backrefs@, start, current),
            nearest_first(*self, *map, start, *vehicle, target, current, dist@, explored@,
                Set::new(|x: LaneID| x < map.lanes@.len() && reached(backrefs@, start, x))),
            forall|x: int|
                0 <= x < backrefs@.len() && x != start && (#[trigger] backrefs@[x]) is Some ==> reached_through(
                    *map,
                    explored@,
                    dist@,
                    backrefs@[x]->Some_0,
                ),
            cands@.len() > 0,
            forall|k: int|
                0 <= k < cands@.len() ==> {
                    &&& self.offers(*map, Position { lane: current, dist_along: 0 }, *vehicle, target, #[trigger] cands@[k].0)
                    &&& cands@[k].1 == driving_pos_of(*map, cands@[k].0, vehicle.length)
                },
            forall|s: ParkingSpot|
                #[trigger] self.offers(*map, Position { lane: current, dist_along: 0 }, *vehicle, target, s) ==> exists|k: int|
                    0 <= k < cands@.len() && cands@[k].0 == s,
        ensures
            r matches Some(found) ==> {
                let end = route_end(start, found.0@);
                let at = Position { lane: end, dist_along: 0 };
                &&& valid_route(*map, start, found.0@)
                &&& found.0@.len() > 0
                &&& end != start
                &&& self.offers(*map, at, *vehicle, target, found.1)
                &&& found.2 == driving_pos_of(*map, found.1, vehicle.length)
                &&& forall|s: ParkingSpot|
                    #[trigger] self.offers(*map, at, *vehicle, target, s) ==> found.2.dist_along
                        <= driving_pos_of(*map, s, vehicle.length).dist_along
                &&& exists|d: Seq<int>, e: Set<LaneID>, reached: Set<LaneID>|
                    #[trigger] nearest_first(*self, *map, start, *vehicle, target, end, d, e, reached)
                        && follows_first_reach(*map, e, d, found.0@)
            },
            r is Some,
    {
        let mut best: usize = 0;
        let mut k: usize = 1;
        while k < cands.len()
            invariant
                0 <= best < cands@.len(),
                1 <= k <= cands@.len(),
                forall|i: int| 0 <= i < k ==> cands@[best as int].1.dist_along <= (#[trigger] cands@[i]).1.dist_along,
            decreases cands@.len() - k,
        {
            if cands[k].1.dist_along < cands[best].1.dist_along {
                best = k;
            }
            k = k + 1;
        }
        let spot = cands[best].0;
        let pos = cands[best].1;
        let mut back: Vec<TurnID> = Vec::new();
        let mut cur = current;
        while cur != start
            invariant
                backrefs_ok(*map, start, backrefs@, rank@, counter@),
                cur < map.lanes@.len(),
                reached(backrefs@, start, cur),
                back@.len() == 0 ==> cur == current,
                back@.len() > 0 ==> back@[0].dst == current && back@.last().src == cur,
                forall|i: int| 0 <= i < back@.len() - 1 ==> (#[trigger] back@[i]).src == back@[i + 1].dst,
                forall|i: int| 0 <= i < back@.len() ==> is_car_turn(*map, #[trigger] back@[i]),
                forall|i: int| 0 <= i < back@.len() ==> reached_through(*map, explored@, dist@, #[trigger] back@[i]),
                forall|x: int|
                    0 <= x < backrefs@.len() && x != start && (#[trigger] backrefs@[x]) is Some ==> reached_through(
                        *map,
                        explored@,
                        dist@,
                        backrefs@[x]->Some_0,
                    ),
            decreases rank@[cur as int],
        {
            proof {
                assert(backrefs@[cur as int] is Some);
            }
            let t = backrefs[cur].unwrap();
            back.push(t);
            cur = t.src;
        }
        let m = back.len();
        let mut steps: Vec<PathStep> = Vec::new();
        let mut k: usize = 0;
        while k < m
            invariant
                m == back@.len(),
                m > 0,
                back@[0].dst == current,
                back@.last().src == start,
                forall|i: int| 0 <= i < back@.len() - 1 ==> (#[trigger] back@[i]).src == back@[i + 1].dst,
                forall|i: int| 0 <= i < back@.len() ==> is_car_turn(*map, #[trigger] back@[i]),
                forall|i: int| 0 <= i < back@.len() ==> reached_through(*map, explored@, dist@, #[trigger] back@[i]),
                forall|i: int| 0 <= i < k ==> #[trigger] route_turn(steps@, i) == back@[m - 1 - i],
                k <= m,
                steps@.len() == 2 * k,
                forall|i: int| 0 <= i < k ==> #[trigger] route_step_ok(*map, start, steps@, i),
                lane_at(start, steps@, k as int) == back@[m - 1 - k as int].src || k == m,
                k > 0 ==> lane_at(start, steps@, k as int) == back@[m - k as int].dst,
            decreases m - k,
        {
            let t = back[m - 1 - k];
            let ghost before = steps@;
            steps.push(PathStep::Turn(t));
            steps.push(PathStep::Lane(t.dst));
            proof {
                assert forall|i: int| 0 <= i < k + 1 implies #[trigger] route_step_ok(*map, start, steps@, i) by {
                    assert(steps@[2 * i] == if i < k { before[2 * i] } else { PathStep::Turn(t) });
                    assert(steps@[2 * i + 1] == if i < k { before[2 * i + 1] } else { PathStep::Lane(t.dst) });
                    if i > 0 {
                        assert(steps@[2 * i - 1] == before[2 * i - 1]);
                    }
                    if i < k {
                        assert(route_step_ok(*map, start, before, i));
                    }
                }
                assert forall|i: int| 0 <= i < k + 1 implies #[trigger] route_turn(steps@, i) == back@[m - 1 - i] by {
                    if i < k {
                        assert(steps@[2 * i] == before[2 * i]);
                        assert(route_turn(before, i) == back@[m - 1 - i]);
                    } else {
                        assert(steps@[2 * i] == PathStep::Turn(t));
                    }
                }
                assert(steps@[2 * (k + 1) - 1] == PathStep::Lane(t.dst));
                if k + 1 < m {
                    assert(back@[m - 1 - (k + 1)].src == back@[m - 1 - k].dst);
                }
            }
            k = k + 1;
        }
        proof {
            assert(steps@.len() / 2 == m);
            assert forall|s: ParkingSpot|
                #[trigger] self.offers(*map, Position { lane: current, dist_along: 0 }, *vehicle, target, s) implies pos.dist_along
                    <= driving_pos_of(*map, s, vehicle.length).dist_along by {
                let i = choose|i: int| 0 <= i < cands@.len() && cands@[i].0 == s;
                assert(cands@[i].1.dist_along >= pos.dist_along);
            }
            assert(self.offers(*map, Position { lane: current, dist_along: 0 }, *vehicle, target, cands@[best as int].0));
            assert forall|i: int| 0 <= i < steps@.len() / 2 implies reached_through(*map, explored@, dist@, #[trigger] route_turn(steps@, i)) by {
                assert(route_turn(steps@, i) == back@[m - 1 - i]);
            }
            assert(follows_first_reach(*map, explored@, dist@, steps@));
            let rr = Set::new(|x: LaneID| x < map.lanes@.len() && reached(backrefs@, start, x));
            assert(nearest_first(*self, *map, start, *vehicle, target, route_end(start, steps@), dist@, explored@, rr));
        }
        Some((steps, spot, pos))
    }

    /// Searches outward from lane `start`, over car turns and closest lanes
    /// first, for a lane other than `start` with a spot offered at its
    /// start. Returns the route there (turns and lanes, `start` itself left
    /// out), the offered spot reached first along that lane, and where on
    /// its driving lane the spot is reached; `None` when no reachable lane
    /// has one.
    pub fn path_to_free_parking_spot(
        &self,
        start: LaneID,
        vehicle: &Vehicle,
        target: BuildingID,
        map: &RoadNetwork,
    ) -> (r: Option<(Vec<PathStep>, ParkingSpot, Position)>)
        requires
            map.wf(),
            self.built_from(*map),
            start < map.lanes@.len(),
            vehicle.wf(),
        ensures
            r matches Some(found) ==> {
                let end = route_end(start, found.0@);
                let at = Position { lane: end, dist_along: 0 };
                &&& valid_route(*map, start, found.0@)
                &&& found.0@.len() > 0
                &&& end != start
                &&& self.offers(*map, at, *vehicle, target, found.1)
                &&& found.2 == driving_pos_of(*map, found.1, vehicle.length)
                &&& forall|s: ParkingSpot|
                    #[trigger] self.offers(*map, at, *vehicle, target, s) ==> found.2.dist_along
                        <= driving_pos_of(*map, s, vehicle.length).dist_along
                &&& exists|d: Seq<int>, e: Set<LaneID>, reached: Set<LaneID>|
                    #[trigger] nearest_first(*self, *map, start, *vehicle, target, end, d, e, reached)
                        && follows_first_reach(*map, e, d, found.0@)
            },
            (forall|s: ParkingSpot| !self.is_free_spec(s)) ==> r is None,
            r is None ==> forall|steps: Seq<PathStep>|
                #[trigger] valid_route(*map, start, steps) && route_end(start, steps) != start
                    ==> !lane_has_offer(*self, *map, route_end(start, steps), *vehicle, target),
    {
        let n = map.lanes.len();
        let mut backrefs = unset_row(n);
        let mut queue: Vec<(u64, LaneID)> = Vec::new();
        queue.push((0, start));
        let ghost mut explored: Set<LaneID> = Set::empty();
        let ghost mut rank: Seq<nat> = Seq::new(n as nat, |i: int| 0nat);
        let ghost mut counter: nat = 0;
        let ghost mut dist: Seq<int> = Seq::new(n as nat, |i: int| 0int);
        proof {
            lemma_count_unset_all(n as nat);
            assert forall|x: LaneID| x < n && #[trigger] reached(backrefs@, start, x) implies explored.contains(x) || exists|k: int|
                0 <= k < queue@.len() && queue@[k].1 == x by {
                assert(queue@[0].1 == start);
            }
        }
        while queue.len() > 0
            invariant
                map.wf(),
                self.built_from(*map),
                vehicle.wf(),
                n == map.lanes@.len(),
                backrefs_ok(*map, start, backrefs@, rank, counter),
                forall|k: int|
                    0 <= k < queue@.len() ==> {
                        &&& (#[trigger] queue@[k]).1 < n
                        &&& reached(backrefs@, start, queue@[k].1)
                        &&& queue@[k].0 <= counter * STEP_MAX
                    },
                forall|x: LaneID|
                    #[trigger] explored.contains(x) ==> {
                        &&& x < n
                        &&& reached(backrefs@, start, x)
                        &&& forall|j: int|
                            0 <= j < map.lanes@[x as int].car_turns@.len() ==> backrefs@[
                                (#[trigger] map.lanes@[x as int].car_turns@[j]).id.dst as int] is Some
                        &&& (x != start ==> !lane_has_offer(*self, *map, x, *vehicle, target))
                    },
                forall|x: LaneID|
                    x < n && #[trigger] reached(backrefs@, start, x) ==> explored.contains(x) || exists|k: int|
                        0 <= k < queue@.len() && queue@[k].1 == x,
                dist.len() == n,
                dist[start as int] == 0,
                forall|x: int|
                    0 <= x < n && x != start && (#[trigger] backrefs@[x]) is Some ==> reached_through(
                        *map,
                        explored,
                        dist,
                        backrefs@[x]->Some_0,
                    ),
                forall|k: int|
                    0 <= k < queue@.len() ==> ((#[trigger] queue@[k]).1 != start ==> queue@[k].0 == dist[queue@[k].1 as int]
                        && !explored.contains(queue@[k].1)) && (queue@[k].1 == start && !explored.contains(start)
                        ==> queue@[k].0 == 0),
                forall|k1: int, k2: int|
                    0 <= k1 < k2 < queue@.len() ==> (#[trigger] queue@[k1]).1 != (#[trigger] queue@[k2]).1
                        || queue@[k1].1 == start,
                explored.contains(start) || forall|k: int| 0 <= k < queue@.len() ==> (#[trigger] queue@[k]).1 == start,
            decreases 2 * count_unset(backrefs@) + queue@.len(),
        {
            let ghost measure = 2 * count_unset(backrefs@) + queue@.len();
            let ghost q0 = queue@;
            let (dist_so_far, current) = pop_min(&mut queue);
            let ghost popped = choose|i: int| 0 <= i < q0.len() && q0[i] == (dist_so_far, current) && queue@ == q0.remove(i);
            proof {
                assert(q0[popped] == (dist_so_far, current));
                assert forall|k: int| 0 <= k < queue@.len() implies #[trigger] queue@[k] == q0[if k < popped { k } else { k + 1 }] by {}
                assert forall|x: LaneID| x < n && #[trigger] reached(backrefs@, start, x) implies x == current || explored.contains(x) || exists|k: int|
                    0 <= k < queue@.len() && queue@[k].1 == x by {
                    if !(x == current || explored.contains(x)) {
                        let k = choose|k: int| 0 <= k < q0.len() && q0[k].1 == x;
                        if k < popped {
                            assert(queue@[k].1 == x);
                        } else {
                            assert(k != popped);
                            assert(queue@[k - 1].1 == x);
                        }
                    }
                }
            }
            if current != start {
                let cands = self.get_all_free_spots(Position::new(current, 0), vehicle, target, map);
                if cands.len() > 0 {
                    proof {
                        lemma_nearest_first_at_pop(*self, *map, start, *vehicle, target, backrefs@, q0, popped, dist, explored);
                    }
                    return self.found_route(start, current, cands, &backrefs, Ghost(rank), Ghost(counter), Ghost(dist), Ghost(explored), vehicle, target, map);
                }
                proof {
                    assert forall|s: ParkingSpot| !#[trigger] self.offers(*map, Position { lane: current, dist_along: 0 }, *vehicle, target, s) by {
                        if self.offers(*map, Position { lane: current, dist_along: 0 }, *vehicle, target, s) {
                            let k = choose|k: int| 0 <= k < cands@.len() && cands@[k].0 == s;
                        }
                    }
                }
            }
            proof {
                assert(map.lane_wf(current as int));
            }
            let turns = &map.lanes[current].car_turns;
            let len_cur = map.lanes[current].length;
            let mut j: usize = 0;
            while j < turns.len()
                invariant
                    map.wf(),
                    n == map.lanes@.len(),
                    current < n,
                    map.lane_wf(current as int),
                    turns == &map.lanes@[current as int].car_turns,
                    len_cur == map.lanes@[current as int].length,
                    j <= turns@.len(),
                    reached(backrefs@, start, current),
                    dist_so_far <= counter * STEP_MAX,
                    counter <= n,
                    backrefs_ok(*map, start, backrefs@, rank, counter),
                    2 * count_unset(backrefs@) + queue@.len() < measure,
                    forall|k: int|
                        0 <= k < queue@.len() ==> {
                            &&& (#[trigger] queue@[k]).1 < n
                            &&& reached(backrefs@, start, queue@[k].1)
                            &&& queue@[k].0 <= counter * STEP_MAX
                        },
                    forall|i: int| 0 <= i < j ==> backrefs@[(#[trigger] turns@[i]).id.dst as int] is Some,
                    forall|x: LaneID|
                        #[trigger] explored.contains(x) ==> {
                            &&& x < n
                            &&& reached(backrefs@, start, x)
                            &&& forall|i: int|
                                0 <= i < map.lanes@[x as int].car_turns@.len() ==> backrefs@[
                                    (#[trigger] map.lanes@[x as int].car_turns@[i]).id.dst as int] is Some
                            &&& (x != start ==> !lane_has_offer(*self, *map, x, *vehicle, target))
                        },
                    explored.contains(current) ==> forall|i: int| 0 <= i < turns@.len() ==> backrefs@[(#[trigger] turns@[i]).id.dst as int] is Some,
                    !explored.contains(current) ==> dist_so_far == dist[current as int],
                    explored.insert(current).contains(start),
                    dist.len() == n,
                    dist[start as int] == 0,
                    forall|x: int|
                        0 <= x < n && x != start && (#[trigger] backrefs@[x]) is Some ==> reached_through(
                            *map,
                            explored.insert(current),
                            dist,
                            backrefs@[x]->Some_0,
                        ),
                    forall|k: int|
                        0 <= k < queue@.len() ==> ((#[trigger] queue@[k]).1 != start ==> queue@[k].0 == dist[queue@[k].1 as int]
                            && !explored.insert(current).contains(queue@[k].1)),
                    forall|k1: int, k2: int|
                        0 <= k1 < k2 < queue@.len() ==> (#[trigger] queue@[k1]).1 != (#[trigger] queue@[k2]).1
                            || queue@[k1].1 == start,
                    current != start ==> !lane_has_offer(*self, *map, current, *vehicle, target),
                    forall|x: LaneID|
                        x < n && #[trigger] reached(backrefs@, start, x) ==> x == current || explored.contains(x) || exists|k: int|
                            0 <= k < queue@.len() && queue@[k].1 == x,
                decreases turns@.len() - j,
            {
                let turn = turns[j];
                let dst = turn.id.dst;
                if backrefs[dst].is_none() {
                    let ghost b0 = backrefs@;
                    let ghost ql = queue@;
                    proof {
                        lemma_count_unset_set(b0, dst as int, turn.id);
                        lemma_count_unset_bound(backrefs@);
                        lemma_dist_bound(counter as int, dist_so_far as int, (turn.length + len_cur) as int);
                        assert(is_car_turn(*map, turn.id)) by {
                            assert(map.lanes@[current as int].car_turns@[j as int].id == turn.id);
                        }
                    }
                    let step = turn.length + len_cur;
                    backrefs.set(dst, Some(turn.id));
                    queue.push((dist_so_far + step, dst));
                    proof {
                        assert(counter * STEP_MAX <= (counter + 1) * STEP_MAX) by (nonlinear_arith);
                        let d0 = dist;
                        if dst != start {
                            dist = dist.update(dst as int, dist_so_far + step);
                        }
                        assert(!explored.contains(current)) by {
                            if explored.contains(current) {
                                assert(backrefs@[turns@[j as int].id.dst as int] is Some);
                            }
                        }
                        assert(current != dst || dst == start);
                        assert forall|y: int| 0 <= y < n && (#[trigger] b0[y]) is Some implies backrefs@[y] is Some by {}
                        assert forall|x: int|
                            0 <= x < n && x != start && (#[trigger] backrefs@[x]) is Some implies reached_through(
                                *map,
                                explored.insert(current),
                                dist,
                                backrefs@[x]->Some_0,
                            ) by {
                            if x == dst {
                                assert(map.lanes@[current as int].car_turns@[j as int] == turn);
                                assert(dist[current as int] == d0[current as int]);
                            } else {
                                let t = b0[x]->Some_0;
                                assert(reached_through(*map, explored.insert(current), d0, t));
                                assert(reached(b0, start, t.src));
                                assert(t.src != dst || dst == start);
                                assert(dist[t.src as int] == d0[t.src as int]);
                                assert(dist[x] == d0[x]);
                            }
                        }
                        assert forall|k: int| 0 <= k < ql.len() implies (#[trigger] ql[k]).1 != dst || dst == start by {
                            assert(reached(b0, start, ql[k].1));
                        }
                        assert forall|x: LaneID| #[trigger] explored.contains(x) implies reached(backrefs@, start, x)
                            && forall|i: int|
                                0 <= i < map.lanes@[x as int].car_turns@.len() ==> backrefs@[
                                    (#[trigger] map.lanes@[x as int].car_turns@[i]).id.dst as int] is Some by {
                            assert(reached(b0, start, x));
                            assert forall|i: int| 0 <= i < map.lanes@[x as int].car_turns@.len() implies backrefs@[
                                (#[trigger] map.lanes@[x as int].car_turns@[i]).id.dst as int] is Some by {
                                assert(map.lane_wf(x as int));
                                let y = map.lanes@[x as int].car_turns@[i].id.dst as int;
                                assert(0 <= y < n);
                                assert(b0[y] is Some);
                                assert(backrefs@[y] == if y == dst { Some(turn.id) } else { b0[y] });
                            }
                        }
                        counter = counter + 1;
                        if dst != start {
                            rank = rank.update(dst as int, counter);
                        }
                        assert forall|x: LaneID| x < n && reached(b0, start, x) implies #[trigger] reached(backrefs@, start, x) by {}
                        assert forall|k: int| 0 <= k < queue@.len() implies {
                            &&& (#[trigger] queue@[k]).1 < n
                            &&& reached(backrefs@, start, queue@[k].1)
                            &&& queue@[k].0 <= counter * STEP_MAX
                        } by {
                            if k < ql.len() {
                                assert(queue@[k] == ql[k]);
                                assert(reached(b0, start, ql[k].1));
                            }
                        }
                        assert forall|x: LaneID| x < n && #[trigger] reached(backrefs@, start, x) implies x == current || explored.contains(x) || exists|k: int|
                            0 <= k < queue@.len() && queue@[k].1 == x by {
                            if x == dst {
                                assert(queue@[ql.len() as int].1 == x);
                            } else {
                                assert(reached(b0, start, x));
                                if !(x == current || explored.contains(x)) {
                                    let k = choose|k: int| 0 <= k < ql.len() && ql[k].1 == x;
                                    assert(queue@[k].1 == x);
                                }
                            }
                        }
                    }
                }
                j = j + 1;
            }
            proof {
                explored = explored.insert(current);
            }
        }
        proof {
            let v = Set::new(|x: LaneID| x < n && reached(backrefs@, start, x));
            assert forall|t: TurnID| #[trigger] is_car_turn(*map, t) && v.contains(t.src) implies v.contains(t.dst) by {
                assert(explored.contains(t.src));
                let j = choose|j: int| 0 <= j < map.lanes@[t.src as int].car_turns@.len() && #[trigger] map.lanes@[t.src as int].car_turns@[j].id == t;
                assert(map.lane_wf(t.src as int));
                assert(reached(backrefs@, start, map.lanes@[t.src as int].car_turns@[j].id.dst));
            }
            assert forall|steps: Seq<PathStep>|
                #[trigger] valid_route(*map, start, steps) && route_end(start, steps) != start
                    implies !lane_has_offer(*self, *map, route_end(start, steps), *vehicle, target) by {
                lemma_route_reaches(*map, start, steps, v, steps.len() as int / 2);
                assert(explored.contains(route_end(start, steps)));
            }
        }
        None
    }
}

} // verus!
