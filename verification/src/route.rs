//! Finding the nearest free spot, and the way to it.

use crate::candidates::spots_of;
use crate::frontier::{Entry, Frontier, lemma_least_unique};
use crate::ids::{BuildingID, LaneID, PathStep, TurnID};
use crate::network::{Network, Position};
use crate::search::{
    SearchState, follows, is_route, is_turn_of, is_walk, leg_follows, leg_is_route, lemma_expand,
    lemma_relax, lemma_relax_reaches, reachable, search_from, spec_find_lane, step_cost, waits,
    walk_step,
};
use crate::spot::ParkingSpot;
use crate::state::{ParkingSimState, ParkingView};
use crate::vehicle::Vehicle;
use std::collections::HashMap;
use vstd::multiset::Multiset;
use vstd::prelude::*;

verus! {

/// No step from a lane over a turn costs more than this.
pub const MAX_STEP: u64 = 0x1_0000_0000;

/// Every lane that was reached remembers a turn of the network that leads to it,
/// taken from the start or from a lane that was reached before it.
spec fn is_tree(
    net: &Network,
    backrefs: Map<usize, TurnID>,
    rank: Map<usize, nat>,
    start: usize,
) -> bool {
    forall|l: usize| #[trigger]
        backrefs.contains_key(l) ==> {
            let t = backrefs[l];
            &&& t.dst.0 == l
            &&& is_turn_of(net, t)
            &&& (l != start ==> rank.contains_key(l))
            &&& (t.src.0 == start || (backrefs.contains_key(t.src.0) && rank.contains_key(t.src.0)
                && (l != start ==> rank[t.src.0] < rank[l])))
        }
}

/// The steps in opposite order.
fn reversed(steps: &Vec<PathStep>) -> (res: Vec<PathStep>)
    ensures
        res@.len() == steps@.len(),
        forall|i: int| 0 <= i < res@.len() ==> res@[i] == steps@[steps@.len() - 1 - i],
{
    let mut res: Vec<PathStep> = Vec::new();
    let mut i: usize = steps.len();
    while i > 0
        invariant
            i <= steps@.len(),
            res@.len() == steps@.len() - i,
            forall|j: int| 0 <= j < res@.len() ==> res@[j] == steps@[steps@.len() - 1 - j],
        decreases i,
    {
        i -= 1;
        res.push(steps[i]);
    }
    res
}

/// Step `2 * i` of the way back is the lane that the `i`-th turn leads to, and
/// the step after it is that turn.
spec fn back_leg(back: Seq<PathStep>, turns: Seq<TurnID>, i: int) -> bool {
    &&& back[2 * i] == PathStep::Lane(turns[i].dst)
    &&& back[2 * i + 1] == PathStep::Turn(turns[i])
}

/// The `i`-th turn of the way back is the one by which its lane was first
/// reached; the first leads to `lane`, each later one to the lane that the turn
/// before it was taken from; none leads to `start`.
spec fn back_chain(
    turns: Seq<TurnID>,
    backrefs: Map<usize, TurnID>,
    start: usize,
    lane: usize,
    i: int,
) -> bool {
    &&& turns[i].dst.0 != start
    &&& backrefs.contains_key(turns[i].dst.0)
    &&& backrefs[turns[i].dst.0] == turns[i]
    &&& if i == 0 {
        turns[i].dst.0 == lane
    } else {
        turns[i - 1].src == turns[i].dst
    }
}

/// The way from `start` to a lane that was reached, over the turns by which the
/// lanes on the way were first reached.
fn walk_back(
    backrefs: &HashMap<usize, TurnID>,
    start: usize,
    lane: usize,
    net: &Network,
    Ghost(rank): Ghost<Map<usize, nat>>,
) -> (path: Vec<PathStep>)
    requires
        lane != start,
        backrefs@.contains_key(lane),
        is_tree(net, backrefs@, rank, start),
    ensures
        follows(path@, backrefs@, start, lane),
        is_route(net, LaneID(start), path@),
{
    let mut back: Vec<PathStep> = Vec::new();
    let mut current = lane;
    let ghost mut turns: Seq<TurnID> = Seq::empty();
    while current != start
        invariant
            is_tree(net, backrefs@, rank, start),
            back@.len() == 2 * turns.len(),
            current == start || (backrefs@.contains_key(current) && rank.contains_key(current)),
            current == (if turns.len() == 0 {
                lane
            } else {
                turns[turns.len() - 1].src.0
            }),
            forall|i: int| 0 <= i < turns.len() ==> #[trigger] back_leg(back@, turns, i),
            forall|i: int|
                0 <= i < turns.len() ==> #[trigger] back_chain(turns, backrefs@, start, lane, i),
        decreases
                if current == start {
                    0
                } else {
                    rank[current] + 1
                },
    {
        let turn = *backrefs.get(&current).unwrap();
        let ghost back_before = back@;
        let ghost turns_before = turns;
        back.push(PathStep::Lane(LaneID(current)));
        back.push(PathStep::Turn(turn));
        proof {
            turns = turns.push(turn);
            assert forall|i: int| 0 <= i < turns.len() implies #[trigger] back_leg(
                back@,
                turns,
                i,
            ) by {
                if i < turns_before.len() {
                    assert(back_leg(back_before, turns_before, i));
                }
            }
            assert forall|i: int| 0 <= i < turns.len() implies #[trigger] back_chain(
                turns,
                backrefs@,
                start,
                lane,
                i,
            ) by {
                if i < turns_before.len() {
                    assert(back_chain(turns_before, backrefs@, start, lane, i));
                }
            }
        }
        current = turn.src.0;
    }
    let path = reversed(&back);
    proof {
        let n = turns.len() as int;
        assert(n >= 1);
        assert forall|i: int| 0 <= i < path@.len() / 2 implies #[trigger] leg_follows(
            path@,
            backrefs@,
            start,
            i,
) by {
            let m = n - 1 - i;
            assert(back_leg(back@, turns, m));
            assert(back_chain(turns, backrefs@, start, lane, m));
            assert(path@[2 * i] == back@[2 * m + 1]);
            assert(path@[2 * i + 1] == back@[2 * m]);
            if i > 0 {
                assert(back_leg(back@, turns, m + 1));
                assert(back_chain(turns, backrefs@, start, lane, m + 1));
                assert(path@[2 * i - 1] == back@[2 * (m + 1)]);
            }
        }
        assert forall|i: int| 0 <= i < path@.len() / 2 implies #[trigger] leg_is_route(
            net,
            LaneID(start),
            path@,
            i,
        ) by {
            assert(leg_follows(path@, backrefs@, start, i));
        }
        assert(back_leg(back@, turns, 0));
        assert(back_chain(turns, backrefs@, start, lane, 0));
        assert(path@[path@.len() - 1] == back@[0]);
    }
    path
}

/// What holds of the search between its steps, beside the state being well
/// formed: the turns remembered form a tree, every lane that waits was reached,
/// and costs have stayed in bounds.
spec fn search_inv(net: &Network, st: SearchState, rank: Map<usize, nat>, start: usize) -> bool {
    &&& st.wf(net)
    &&& is_tree(net, st.backrefs, rank, start)
    &&& st.backrefs.dom().len() <= net.lanes@.len()
    &&& forall|e: Entry| #[trigger]
        st.frontier.count(e) > 0 ==> (e.1 == start || st.backrefs.contains_key(e.1)) && e.0
            <= st.backrefs.dom().len() * MAX_STEP
}

/// Looks at every turn from the end of a lane that has left the frontier: each
/// lane reached for the first time remembers the turn and joins the frontier.
fn relax_turns(
    net: &Network,
    start: usize,
    current: usize,
    dist_so_far: u64,
    queue: &mut Frontier,
    backrefs: &mut HashMap<usize, TurnID>,
    Ghost(rank): Ghost<Map<usize, nat>>,
) -> (new_rank: Ghost<Map<usize, nat>>)
    requires
        net.wf(),
        old(queue).wf(),
        current < net.lanes@.len(),
        search_inv(
            net,
            SearchState { frontier: old(queue)@, backrefs: old(backrefs)@ },
            rank,
            start,
        ),
        current == start || old(backrefs)@.contains_key(current),
        dist_so_far <= old(backrefs)@.dom().len() * MAX_STEP,
    ensures
        final(queue).wf(),
        (SearchState { frontier: final(queue)@, backrefs: final(backrefs)@ }) == (SearchState {
            frontier: old(queue)@,
            backrefs: old(backrefs)@,
        }).relax(net, dist_so_far, current, net.lanes@[current as int].turns@.len() as int),
        search_inv(
            net,
            SearchState { frontier: final(queue)@, backrefs: final(backrefs)@ },
            new_rank@,
            start,
        ),
{
    broadcast use vstd::multiset::group_multiset_axioms;

    let ghost popped = SearchState { frontier: queue@, backrefs: backrefs@ };
    let ghost mut rank = rank;
    let lane = &net.lanes[current];
    let mut j: usize = 0;
    while j < lane.turns.len()
        invariant
            net.wf(),
            current < net.lanes@.len(),
            lane == net.lanes@[current as int],
            j <= lane.turns@.len(),
            queue.wf(),
            popped.wf(net),
            (SearchState { frontier: queue@, backrefs: backrefs@ }) == popped.relax(
                net,
                dist_so_far,
                current,
                j as int,
            ),
            search_inv(net, SearchState { frontier: queue@, backrefs: backrefs@ }, rank, start),
            current == start || backrefs@.contains_key(current),
            dist_so_far <= backrefs@.dom().len() * MAX_STEP,
        decreases lane.turns@.len() - j,
    {
        let turn = lane.turns[j];
        let dst = turn.id.dst.0;
        proof {
            assert(net.lane_wf(current as int));
            assert(net.turn_wf(current as int, j as int));
            lemma_relax(net, popped, dist_so_far, current, j + 1);
        }
        let ghost before = SearchState { frontier: queue@, backrefs: backrefs@ };
        if !backrefs.contains_key(&dst) {
            let cost = dist_so_far + turn.length + lane.length;
            backrefs.insert(dst, turn.id);
            queue.push(cost, dst);
            proof {
                let from = if current == start {
                    0nat
                } else {
                    rank[current]
                };
                rank = rank.insert(dst, from + 1);
                let now = SearchState { frontier: queue@, backrefs: backrefs@ };
                assert(cost == (dist_so_far + step_cost(net, current, j as int)) as u64);
                assert(now.backrefs.dom() =~= before.backrefs.dom().insert(dst));
                assert(now.backrefs.dom().len() == before.backrefs.dom().len() + 1);
                assert(is_turn_of(net, turn.id)) by {
                    assert(net.lanes@[turn.id.src.0 as int].turns@[j as int].id == turn.id);
                }
                assert forall|l: usize| #[trigger] now.backrefs.contains_key(l) implies {
                    let t = now.backrefs[l];
                    &&& t.dst.0 == l
                    &&& is_turn_of(net, t)
                    &&& (l != start ==> rank.contains_key(l))
                    &&& (t.src.0 == start || (now.backrefs.contains_key(t.src.0)
                        && rank.contains_key(t.src.0) && (l != start ==> rank[t.src.0] < rank[l])))
                } by {
                    if l != dst {
                        assert(before.backrefs.contains_key(l));
                    } else {
                        if current != start {
                            assert(before.backrefs.contains_key(current));
                        }
                    }
                }
                assert forall|e: Entry| #[trigger] now.frontier.count(e) > 0 implies (e.1 == start
                    || now.backrefs.contains_key(e.1)) && e.0 <= now.backrefs.dom().len()
                    * MAX_STEP by {
                    if e != (cost, dst) {
                        assert(before.frontier.count(e) > 0);
                    }
                }
            }
        }
        j += 1;
    }
    Ghost(rank)
}

/// The index of the entry that lies nearest the start of its lane; of several,
/// the first.
fn closest(found: &Vec<(ParkingSpot, Position)>) -> (best: usize)
    requires
        found@.len() > 0,
    ensures
        best < found@.len(),
        forall|j: int|
            0 <= j < found@.len() ==> found@[best as int].1.dist_along <= (
            #[trigger] found@[j]).1.dist_along,
        forall|j: int|
            0 <= j < best ==> found@[best as int].1.dist_along < (#[trigger] found@[j]).1.dist_along,
{
    let mut best: usize = 0;
    let mut i: usize = 1;
    while i < found.len()
        invariant
            best < i <= found@.len(),
            forall|j: int|
                0 <= j < i ==> found@[best as int].1.dist_along <= (
                #[trigger] found@[j]).1.dist_along,
            forall|j: int|
                0 <= j < best ==> found@[best as int].1.dist_along < (
                #[trigger] found@[j]).1.dist_along,
        decreases found@.len() - i,
    {
        if found[i].1.dist_along < found[best].1.dist_along {
            best = i;
        }
        i += 1;
    }
    best
}

/// What the search has settled: every lane that was reached waits in the
/// frontier or is done with; from a lane that is done with, every turn leads to a
/// lane that was reached; and no lane that is done with, but for the start, has
/// a spot to offer.
spec fn settled(
    view: ParkingView,
    net: &Network,
    st: SearchState,
    done: Set<usize>,
    start: usize,
    vehicle: Vehicle,
    target: BuildingID,
) -> bool {
    &&& forall|x: usize|
        x == start || #[trigger] st.backrefs.contains_key(x) ==> done.contains(x) || waits(
            st.frontier,
            x,
        )
    &&& done.contains(start) || waits(st.frontier, start)
    &&& forall|x: usize, j: int|
        done.contains(x) && 0 <= j < net.lanes@[x as int].turns@.len()
            ==> st.backrefs.contains_key((#[trigger] net.lanes@[x as int].turns@[j]).id.dst.0)
    &&& forall|x: usize| #[trigger]
        done.contains(x) ==> x < net.lanes@.len() && (x != start ==> !view.has_candidates(
            net,
            LaneID(x),
            vehicle,
            target,
        ))
}

/// Once no lane waits any more, every lane on a way that cars can drive from the
/// start is done with.
proof fn lemma_exhausted(
    view: ParkingView,
    net: &Network,
    st: SearchState,
    done: Set<usize>,
    start: usize,
    vehicle: Vehicle,
    target: BuildingID,
    walk: Seq<usize>,
    i: int,
)
    requires
        settled(view, net, st, done, start, vehicle, target),
        st.frontier.len() == 0,
        is_walk(net, walk),
        walk[0] == start,
        0 <= i < walk.len(),
    ensures
        done.contains(walk[i]),
    decreases i,
{
    broadcast use vstd::multiset::group_multiset_axioms;

    assert forall|l: usize| !waits(st.frontier, l) by {
        if waits(st.frontier, l) {
            let c = choose|c: u64| st.frontier.count((c, l)) > 0;
            assert(st.frontier.count((c, l)) <= st.frontier.len());
        }
    }
    if i > 0 {
        lemma_exhausted(view, net, st, done, start, vehicle, target, walk, i - 1);
        assert(walk_step(net, walk, i - 1));
        let mid = walk[i - 1];
        let j = choose|j: int|
            0 <= j < net.lanes@[mid as int].turns@.len() && (
            #[trigger] net.lanes@[mid as int].turns@[j]).id.dst.0 == walk[i];
        assert(st.backrefs.contains_key(net.lanes@[mid as int].turns@[j].id.dst.0));
    }
}

impl ParkingSimState {
    /// Searches outward from the end of `start` for the nearest lane from which
    /// a free spot can be had, and returns the way there, the spot, and the point
    /// where the vehicle leaves the road for it. The way begins with the turn
    /// taken from `start`; `start` itself is no step of it, and no spot is taken
    /// from it. Returns nothing where no lane that cars can reach has a spot.
    ///
    /// The search reads the ledger as it stands; it reserves nothing.
    pub fn path_to_free_parking_spot(
        &self,
        start: LaneID,
        vehicle: &Vehicle,
        target: BuildingID,
        net: &Network,
    ) -> (res: Option<(Vec<PathStep>, ParkingSpot, Position)>)
        requires
            net.wf(),
            self.consistent_with(net),
            start.0 < net.lanes@.len(),
        ensures
            match res {
                None => {
                    &&& spec_find_lane(self@, net, start, *vehicle, target) is None
                    &&& forall|lane: usize|
                        lane != start.0 && #[trigger] reachable(net, start.0, lane)
                            ==> !self@.has_candidates(net, LaneID(lane), *vehicle, target)
                },
                Some(hit) => {
                    &&& spec_find_lane(self@, net, start, *vehicle, target) matches Some(found)
                    &&& follows(hit.0@, found.1, start.0, found.0)
                    &&& is_route(net, start, hit.0@)
                    &&& self@.is_closest(net, LaneID(found.0), *vehicle, target, hit.1)
                    &&& hit.2 == self@.inventory.driving_pos(hit.1, *vehicle, net)
                    &&& hit.2.lane != start
                    &&& hit.2.dist_along > 0
                },
            },
    {
        broadcast use vstd::multiset::group_multiset_axioms;

        let mut backrefs: HashMap<usize, TurnID> = HashMap::new();
        let mut queue = Frontier::new();
        queue.push(0, start.0);
        let ghost mut rank: Map<usize, nat> = Map::empty();
        let ghost mut done: Set<usize> = Set::empty();
        proof {
            assert(queue@ =~= Multiset::singleton((0u64, start.0)));
            assert(backrefs@.dom() =~= Set::<usize>::empty());
            assert(queue@.count((0u64, start.0)) > 0);
            assert(waits(queue@, start.0));
        }
        loop
            invariant
                net.wf(),
                queue.wf(),
                settled(
                    self@,
                    net,
                    SearchState { frontier: queue@, backrefs: backrefs@ },
                    done,
                    start.0,
                    *vehicle,
                    target,
                ),
                self.consistent_with(net),
                start.0 < net.lanes@.len(),
                search_inv(
                    net,
                    SearchState { frontier: queue@, backrefs: backrefs@ },
                    rank,
                    start.0,
                ),
                spec_find_lane(self@, net, start, *vehicle, target) == search_from(
                    self@,
                    net,
                    start.0,
                    *vehicle,
                    target,
                    SearchState { frontier: queue@, backrefs: backrefs@ },
                ),
            decreases (SearchState { frontier: queue@, backrefs: backrefs@ }).measure(net),
        {
            let ghost st = SearchState { frontier: queue@, backrefs: backrefs@ };
            let (dist_so_far, current) = match queue.pop() {
                None => {
                    proof {
                        assert forall|lane: usize|
                            lane != start.0 && #[trigger] reachable(
                                net,
                                start.0,
                                lane,
                            ) implies !self@.has_candidates(net, LaneID(lane), *vehicle, target) by {
                            let walk = choose|walk: Seq<usize>|
                                #[trigger] is_walk(net, walk) && walk[0] == start.0 && walk[walk.len()
                                    - 1] == lane;
                            lemma_exhausted(
                                self@,
                                net,
                                st,
                                done,
                                start.0,
                                *vehicle,
                                target,
                                walk,
                                walk.len() - 1,
                            );
                        }
                    }
                    return None;
                },
                Some(e) => e,
            };
            let ghost e = (dist_so_far, current);
            proof {
                lemma_least_unique(st.frontier, e);
                assert(st.frontier.count(e) <= st.frontier.len());
                lemma_expand(net, st);
            }
            let ghost from = Position { lane: LaneID(current), dist_along: 0 };
            if current != start.0 {
                let found = self.get_all_free_spots(
                    Position::start(LaneID(current)),
                    vehicle,
                    target,
                    net,
                );
                if found.len() > 0 {
                    let best = closest(&found);
                    let path = walk_back(&backrefs, start.0, current, net, Ghost(rank));
                    let spot = found[best].0;
                    let pos = found[best].1;
                    proof {
                        let spots = spots_of(found@);
                        assert(spots[best as int] == spot);
                        assert(spots.contains(spot));
                        assert(self@.is_candidate(net, from, *vehicle, target, spot));
                        assert forall|other: ParkingSpot| #[trigger]
                            self@.is_candidate(net, from, *vehicle, target, other) implies {
                            let d = self@.inventory.driving_pos(spot, *vehicle, net).dist_along;
                            let o = self@.inventory.driving_pos(other, *vehicle, net).dist_along;
                            d < o || (d == o && (spot == other || spot.spec_lt(other)))
                        } by {
                            assert(spots.contains(other));
                            let j = choose|j: int| 0 <= j < spots.len() && spots[j] == other;
                            assert(found@[j].0 == other);
                            if j > best {
                                assert(spots[best as int].spec_lt(spots[j]));
                            }
                        }
                    }
                    return Some((path, spot, pos));
                }
                proof {
                    assert forall|spot: ParkingSpot|
                        !self@.is_candidate(net, from, *vehicle, target, spot) by {
                        if self@.is_candidate(net, from, *vehicle, target, spot) {
                            assert(spots_of(found@).contains(spot));
                        }
                    }
                }
            }
            let new_rank = relax_turns(
                net,
                start.0,
                current,
                dist_so_far,
                &mut queue,
                &mut backrefs,
                Ghost(rank),
            );
            proof {
                rank = new_rank@;
                let now = SearchState { frontier: queue@, backrefs: backrefs@ };
                assert(now == st.expand(net, e));
                let popped = SearchState { frontier: st.frontier.remove(e), backrefs: st.backrefs };
                let turns = net.lanes@[current as int].turns@.len() as int;
                assert forall|o: Entry| popped.frontier.count(o) > 0 implies o.1
                    < net.lanes@.len() by {
                    assert(st.frontier.count(o) > 0);
                }
                lemma_relax(net, popped, dist_so_far, current, turns);
                lemma_relax_reaches(net, popped, dist_so_far, current, turns);
                let old_done = done;
                done = done.insert(current);
                assert forall|x: usize|
                    x == start.0 || #[trigger] now.backrefs.contains_key(x) implies done.contains(x)
                    || waits(now.frontier, x) by {
                    if x != current {
                        if x == start.0 || st.backrefs.contains_key(x) {
                            if !old_done.contains(x) {
                                let c = choose|c: u64| st.frontier.count((c, x)) > 0;
                                assert(popped.frontier.count((c, x)) > 0);
                                assert(now.frontier.count((c, x)) > 0);
                            }
                        }
                    }
                }
                assert(done.contains(start.0) || waits(now.frontier, start.0)) by {
                    if start.0 != current && !old_done.contains(start.0) {
                        let c = choose|c: u64| st.frontier.count((c, start.0)) > 0;
                        assert(popped.frontier.count((c, start.0)) > 0);
                        assert(now.frontier.count((c, start.0)) > 0);
                    }
                }
                assert forall|x: usize, j: int|
                    done.contains(x) && 0 <= j < net.lanes@[x as int].turns@.len() implies now.backrefs.contains_key(
                    (#[trigger] net.lanes@[x as int].turns@[j]).id.dst.0,
                ) by {
                    if x != current {
                        assert(st.backrefs.contains_key(net.lanes@[x as int].turns@[j].id.dst.0));
                    }
                }
                assert forall|x: usize| #[trigger] done.contains(x) implies x < net.lanes@.len()
                    && (x != start.0 ==> !self@.has_candidates(
                    net,
                    LaneID(x),
                    *vehicle,
                    target,
                )) by {
                    if x != current {
                        assert(old_done.contains(x));
                    }
                }
            }
        }
    }
}

} // verus!
