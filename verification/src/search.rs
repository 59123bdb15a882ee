//! The best-first search for the nearest free spot, as contracts speak of it.
//!
//! The search starts on a lane with cost zero. It takes the waiting lane of least
//! cost out of the frontier; of lanes of equal cost, the one with the lowest
//! number. If that lane is not the start and a spot can be had from it, the
//! search ends there. Otherwise every turn from the end of the lane is looked at:
//! a lane that is reached for the first time remembers the turn and joins the
//! frontier, at the cost of the lane left plus the lengths of that lane and of
//! the turn. A lane reached before stays as it is.

use crate::frontier::{Entry, entry_le, is_least, least};
use crate::ids::{BuildingID, LaneID, PathStep, TurnID};
use crate::network::{Network, Position, MAX_LENGTH};
use crate::spot::ParkingSpot;
use crate::state::ParkingView;
use crate::vehicle::Vehicle;
use vstd::multiset::Multiset;
use vstd::prelude::*;

verus! {

/// What the search knows at a moment.
pub struct SearchState {
    /// The lanes that wait for their turn, each with the cost at which it was
    /// reached.
    pub frontier: Multiset<Entry>,
    /// For each lane reached so far, the turn by which it was first reached.
    pub backrefs: Map<usize, TurnID>,
}

/// The cost of going on from the start of a lane over its `k`-th turn.
pub open spec fn step_cost(net: &Network, lane: usize, k: int) -> int {
    net.lanes@[lane as int].turns@[k].length + net.lanes@[lane as int].length
}

impl SearchState {
    /// The search before its first step: only the start waits, at no cost.
    pub open spec fn start_at(start: usize) -> SearchState {
        SearchState { frontier: Multiset::singleton((0u64, start)), backrefs: Map::empty() }
    }

    /// Only lanes of the network wait or were reached.
    pub open spec fn wf(self, net: &Network) -> bool {
        &&& self.backrefs.dom().finite()
        &&& forall|l: usize| #[trigger] self.backrefs.contains_key(l) ==> l < net.lanes@.len()
        &&& forall|e: Entry| self.frontier.count(e) > 0 ==> e.1 < net.lanes@.len()
    }

    /// What is left to do at most: two for each lane not yet reached, one for each
    /// lane that waits.
    pub open spec fn measure(self, net: &Network) -> int {
        2 * (net.lanes@.len() - self.backrefs.dom().len()) + self.frontier.len()
    }

    /// The state after the first `k` turns from the end of `lane` were looked at,
    /// the lane having been reached at `cost`.
    pub open spec fn relax(self, net: &Network, cost: u64, lane: usize, k: int) -> SearchState
        decreases k,
    {
        if k <= 0 {
            self
        } else {
            let prev = self.relax(net, cost, lane, k - 1);
            let turn = net.lanes@[lane as int].turns@[k - 1];
            if prev.backrefs.contains_key(turn.id.dst.0) {
                prev
            } else {
                SearchState {
                    frontier: prev.frontier.insert(
                        ((cost + step_cost(net, lane, k - 1)) as u64, turn.id.dst.0),
                    ),
                    backrefs: prev.backrefs.insert(turn.id.dst.0, turn.id),
                }
            }
        }
    }

    /// The state after an entry left the frontier and all turns from the end of
    /// its lane were looked at.
    pub open spec fn expand(self, net: &Network, e: Entry) -> SearchState {
        (SearchState { frontier: self.frontier.remove(e), backrefs: self.backrefs }).relax(
            net,
            e.0,
            e.1,
            net.lanes@[e.1 as int].turns@.len() as int,
        )
    }
}

impl ParkingView {
    /// A vehicle that enters the lane at its start can park in some spot from it.
    pub open spec fn has_candidates(
        self,
        net: &Network,
        lane: LaneID,
        vehicle: Vehicle,
        target: BuildingID,
    ) -> bool {
        exists|spot: ParkingSpot|
            self.is_candidate(net, Position { lane, dist_along: 0 }, vehicle, target, spot)
    }

    /// The spot is the one to take from the lane: of all spots that a vehicle
    /// entering the lane at its start can park in, it is left for nearest the
    /// start of the lane; of several such, it is the first in the order of spots.
    pub open spec fn is_closest(
        self,
        net: &Network,
        lane: LaneID,
        vehicle: Vehicle,
        target: BuildingID,
        spot: ParkingSpot,
    ) -> bool {
        let from = Position { lane, dist_along: 0 };
        &&& self.is_candidate(net, from, vehicle, target, spot)
        &&& forall|other: ParkingSpot| #[trigger]
            self.is_candidate(net, from, vehicle, target, other) ==> {
                let d = self.inventory.driving_pos(spot, vehicle, net).dist_along;
                let o = self.inventory.driving_pos(other, vehicle, net).dist_along;
                d < o || (d == o && (spot == other || spot.spec_lt(other)))
            }
    }
}

/// A set of numbers below `n` has at most `n` members.
pub proof fn lemma_bounded_len(s: Set<usize>, n: nat)
    requires
        s.finite(),
        forall|k: usize| s.contains(k) ==> k < n,
    ensures
        s.len() <= n,
    decreases n,
{
    if n == 0 {
        assert(s =~= Set::<usize>::empty());
    } else {
        let top = (n - 1) as usize;
        let rest = s.remove(top);
        assert forall|k: usize| rest.contains(k) implies k < (n - 1) as nat by {
            assert(s.contains(k));
        }
        lemma_bounded_len(rest, (n - 1) as nat);
    }
}

/// A frontier in which a lane waits has a least entry.
pub proof fn lemma_least_exists(q: Multiset<Entry>)
    requires
        q.len() > 0,
    ensures
        is_least(q, least(q)),
    decreases q.len(),
{
    broadcast use vstd::multiset::group_multiset_axioms;

    let x = q.choose();
    assert(q.count(x) > 0);
    let rest = q.remove(x);
    assert(rest.len() == q.len() - 1);
    if rest.len() == 0 {
        assert forall|o: Entry| q.count(o) > 0 implies entry_le(x, o) by {
            if o != x {
                assert(rest.count(o) == q.count(o));
                assert(rest.count(o) <= rest.len());
            }
        }
        assert(is_least(q, x));
    } else {
        lemma_least_exists(rest);
        let l = least(rest);
        let m = if entry_le(x, l) {
            x
        } else {
            l
        };
        assert(q.count(l) > 0);
        assert forall|o: Entry| q.count(o) > 0 implies entry_le(m, o) by {
            if o != x {
                assert(rest.count(o) == q.count(o));
                assert(entry_le(l, o));
            }
        }
        assert(is_least(q, m));
    }
}

/// Looking at turns keeps the state well formed and leaves no more to do than
/// there was; it never forgets a lane that was reached or that waits.
pub proof fn lemma_relax(net: &Network, st: SearchState, cost: u64, lane: usize, k: int)
    requires
        net.wf(),
        st.wf(net),
        lane < net.lanes@.len(),
        0 <= k <= net.lanes@[lane as int].turns@.len(),
    ensures
        st.relax(net, cost, lane, k).wf(net),
        st.relax(net, cost, lane, k).measure(net) <= st.measure(net),
        st.relax(net, cost, lane, k).backrefs.dom().len() <= net.lanes@.len(),
        forall|l: usize| #[trigger]
            st.backrefs.contains_key(l) ==> st.relax(net, cost, lane, k).backrefs.contains_key(l)
                && st.relax(net, cost, lane, k).backrefs[l] == st.backrefs[l],
        forall|e: Entry| st.frontier.count(e) <= st.relax(net, cost, lane, k).frontier.count(e),
    decreases k,
{
    broadcast use vstd::multiset::group_multiset_axioms;

    if k > 0 {
        lemma_relax(net, st, cost, lane, k - 1);
        let prev = st.relax(net, cost, lane, k - 1);
        let turn = net.lanes@[lane as int].turns@[k - 1];
        assert(net.lane_wf(lane as int));
        assert(net.turn_wf(lane as int, k - 1));
    }
    lemma_bounded_len(st.relax(net, cost, lane, k).backrefs.dom(), net.lanes@.len());
}

/// Taking the least entry out and looking at the turns from its lane leaves
/// less to do than there was.
pub proof fn lemma_expand(net: &Network, st: SearchState)
    requires
        net.wf(),
        st.wf(net),
        st.frontier.len() > 0,
    ensures
        st.expand(net, least(st.frontier)).wf(net),
        0 <= st.expand(net, least(st.frontier)).measure(net) < st.measure(net),
{
    broadcast use vstd::multiset::group_multiset_axioms;

    lemma_least_exists(st.frontier);
    let e = least(st.frontier);
    let popped = SearchState { frontier: st.frontier.remove(e), backrefs: st.backrefs };
    assert(popped.frontier.len() == st.frontier.len() - 1);
    assert forall|o: Entry| popped.frontier.count(o) > 0 implies o.1 < net.lanes@.len() by {
        assert(st.frontier.count(o) > 0);
    }
    lemma_relax(net, popped, e.0, e.1, net.lanes@[e.1 as int].turns@.len() as int);
}

/// The lane at which the search ends, with the turns by which lanes were reached;
/// or nothing, where the frontier runs empty first.
pub open spec fn search_from(
    view: ParkingView,
    net: &Network,
    start: usize,
    vehicle: Vehicle,
    target: BuildingID,
    st: SearchState,
) -> Option<(usize, Map<usize, TurnID>)>
    decreases st.measure(net),
    when net.wf() && st.wf(net)
{
    if st.frontier.len() == 0 {
        None
    } else {
        let e = least(st.frontier);
        if e.1 != start && view.has_candidates(net, LaneID(e.1), vehicle, target) {
            Some((e.1, st.backrefs))
        } else {
            proof {
                lemma_expand(net, st);
            }
            search_from(view, net, start, vehicle, target, st.expand(net, e))
        }
    }
}

/// The lane at which the search from `start` ends, with the turns by which lanes
/// were reached.
pub open spec fn spec_find_lane(
    view: ParkingView,
    net: &Network,
    start: LaneID,
    vehicle: Vehicle,
    target: BuildingID,
) -> Option<(usize, Map<usize, TurnID>)> {
    search_from(view, net, start.0, vehicle, target, SearchState::start_at(start.0))
}

/// The turn is one that cars may take in the network.
pub open spec fn is_turn_of(net: &Network, t: TurnID) -> bool {
    &&& t.src.0 < net.lanes@.len()
    &&& exists|j: int|
        0 <= j < net.lanes@[t.src.0 as int].turns@.len() && (
        #[trigger] net.lanes@[t.src.0 as int].turns@[j]).id == t
}

/// The `i`-th leg of the steps is a turn that cars may take and the lane it leads
/// to, and the turn is taken from the lane of the leg before, or from `start` if
/// there is none.
pub open spec fn leg_is_route(net: &Network, start: LaneID, path: Seq<PathStep>, i: int) -> bool {
    &&& path[2 * i] matches PathStep::Turn(t)
    &&& is_turn_of(net, t)
    &&& path[2 * i + 1] == PathStep::Lane(t.dst)
    &&& if i == 0 {
        t.src == start
    } else {
        path[2 * i - 1] == PathStep::Lane(t.src)
    }
}

/// The steps are a way through the network that a car can drive from the end of
/// `start`: legs of a turn and the lane it leads to, each turn taken from the lane
/// before it, the first from `start`.
pub open spec fn is_route(net: &Network, start: LaneID, path: Seq<PathStep>) -> bool {
    &&& path.len() % 2 == 0
    &&& forall|i: int| 0 <= i < path.len() / 2 ==> #[trigger] leg_is_route(net, start, path, i)
}

/// The `i`-th leg of the steps is the turn by which its lane was first reached,
/// and that lane is not `start`.
pub open spec fn leg_follows(
    path: Seq<PathStep>,
    backrefs: Map<usize, TurnID>,
    start: usize,
    i: int,
) -> bool {
    &&& path[2 * i] matches PathStep::Turn(t)
    &&& path[2 * i + 1] == PathStep::Lane(t.dst)
    &&& t.dst.0 != start
    &&& backrefs.contains_key(t.dst.0)
    &&& backrefs[t.dst.0] == t
    &&& if i == 0 {
        t.src.0 == start
    } else {
        path[2 * i - 1] == PathStep::Lane(t.src)
    }
}

/// The steps lead from `start` to `lane` over the turns by which the lanes on the
/// way were first reached, and touch `start` at the beginning only.
pub open spec fn follows(
    path: Seq<PathStep>,
    backrefs: Map<usize, TurnID>,
    start: usize,
    lane: usize,
) -> bool {
    &&& path.len() >= 2
    &&& path.len() % 2 == 0
    &&& path[path.len() - 1] == PathStep::Lane(LaneID(lane))
    &&& forall|i: int| 0 <= i < path.len() / 2 ==> #[trigger] leg_follows(path, backrefs, start, i)
}

/// Of two lanes that wait at equal cost, the one with the higher number is not
/// the next to leave the frontier.
pub proof fn lemma_lower_lane_first(q: Multiset<Entry>, a: Entry, b: Entry)
    requires
        q.count(a) > 0,
        q.count(b) > 0,
        a.0 == b.0,
        a.1 < b.1,
    ensures
        least(q) != b,
        is_least(q, least(q)),
        entry_le(least(q), a),
{
    broadcast use vstd::multiset::group_multiset_axioms;

    assert(q.count(a) <= q.len());
    lemma_least_exists(q);
    assert(entry_le(least(q), a));
    assert(!entry_le(b, a));
}

/// A turn that cars may take leads from the end of lane `from` to lane `to`.
pub open spec fn leads(net: &Network, from: usize, to: usize) -> bool {
    &&& from < net.lanes@.len()
    &&& exists|j: int|
        0 <= j < net.lanes@[from as int].turns@.len() && (
        #[trigger] net.lanes@[from as int].turns@[j]).id.dst.0 == to
}

/// From the `i`-th lane of the row a turn leads to the next.
pub open spec fn walk_step(net: &Network, walk: Seq<usize>, i: int) -> bool {
    leads(net, walk[i], walk[i + 1])
}

/// The row of lanes is one that cars can drive: from the end of each lane a turn
/// leads to the next.
pub open spec fn is_walk(net: &Network, walk: Seq<usize>) -> bool {
    &&& walk.len() > 0
    &&& forall|i: int| 0 <= i < walk.len() - 1 ==> #[trigger] walk_step(net, walk, i)
}

/// Cars can drive from the end of lane `from` to lane `to`.
pub open spec fn reachable(net: &Network, from: usize, to: usize) -> bool {
    exists|walk: Seq<usize>|
        #[trigger] is_walk(net, walk) && walk[0] == from && walk[walk.len() - 1] == to
}

/// The lane waits in the frontier, at some cost.
pub open spec fn waits(q: Multiset<Entry>, lane: usize) -> bool {
    exists|cost: u64| q.count((cost, lane)) > 0
}

/// After the turns from the end of a lane were looked at, every lane that they
/// lead to has been reached, and every lane that was reached only now waits in
/// the frontier.
pub proof fn lemma_relax_reaches(net: &Network, st: SearchState, cost: u64, lane: usize, k: int)
    requires
        net.wf(),
        st.wf(net),
        lane < net.lanes@.len(),
        0 <= k <= net.lanes@[lane as int].turns@.len(),
    ensures
        forall|j: int|
            0 <= j < k ==> st.relax(net, cost, lane, k).backrefs.contains_key(
                (#[trigger] net.lanes@[lane as int].turns@[j]).id.dst.0,
            ),
        forall|l: usize| #[trigger]
            st.relax(net, cost, lane, k).backrefs.contains_key(l) ==> st.backrefs.contains_key(l)
                || waits(st.relax(net, cost, lane, k).frontier, l),
    decreases k,
{
    broadcast use vstd::multiset::group_multiset_axioms;

    if k > 0 {
        lemma_relax_reaches(net, st, cost, lane, k - 1);
        lemma_relax(net, st, cost, lane, k - 1);
        let prev = st.relax(net, cost, lane, k - 1);
        let now = st.relax(net, cost, lane, k);
        let turn = net.lanes@[lane as int].turns@[k - 1];
        assert forall|l: usize| #[trigger] now.backrefs.contains_key(l) implies st.backrefs.contains_key(
            l,
        ) || waits(now.frontier, l) by {
            if prev.backrefs.contains_key(l) {
                if !st.backrefs.contains_key(l) {
                    let c = choose|c: u64| prev.frontier.count((c, l)) > 0;
                    assert(now.frontier.count((c, l)) > 0);
                }
            } else {
                let c = (cost + step_cost(net, lane, k - 1)) as u64;
                assert(l == turn.id.dst.0);
                assert(now.frontier.count((c, l)) > 0);
            }
        }
    }
}

/// The frontier is worked through in rising order of cost: a lane that joins it
/// while the turns from another lane are looked at costs no less than that lane
/// did.
pub proof fn lemma_costs_never_fall(net: &Network, st: SearchState, cost: u64, lane: usize, k: int)
    requires
        net.wf(),
        lane < net.lanes@.len(),
        0 <= k <= net.lanes@[lane as int].turns@.len(),
        cost + 2 * MAX_LENGTH <= u64::MAX,
    ensures
        forall|e: Entry|
            st.relax(net, cost, lane, k).frontier.count(e) > st.frontier.count(e) ==> e.0 >= cost,
    decreases k,
{
    broadcast use vstd::multiset::group_multiset_axioms;

    if k > 0 {
        lemma_costs_never_fall(net, st, cost, lane, k - 1);
        assert(net.lane_wf(lane as int));
        assert(net.turn_wf(lane as int, k - 1));
    }
}

/// First come, first kept: a lane joins the frontier only when it is reached for
/// the first time, and the turn that a lane remembers never changes. So no lane
/// but the start, which waits from the beginning, joins the frontier twice.
pub proof fn lemma_reached_once(net: &Network, st: SearchState, cost: u64, lane: usize, k: int)
    requires
        0 <= k <= net.lanes@[lane as int].turns@.len(),
    ensures
        forall|e: Entry|
            st.relax(net, cost, lane, k).frontier.count(e) > st.frontier.count(e)
                ==> !st.backrefs.contains_key(e.1) && st.relax(
                net,
                cost,
                lane,
                k,
            ).backrefs.contains_key(e.1),
        forall|l: usize| #[trigger]
            st.backrefs.contains_key(l) ==> st.relax(net, cost, lane, k).backrefs.contains_key(l)
                && st.relax(net, cost, lane, k).backrefs[l] == st.backrefs[l],
        forall|a: Entry, b: Entry|
            a.1 == b.1 && a != b && st.relax(net, cost, lane, k).frontier.count(a)
                > st.frontier.count(a) ==> st.relax(net, cost, lane, k).frontier.count(b)
                == st.frontier.count(b),
        forall|e: Entry|
            st.frontier.count(e) <= #[trigger] st.relax(net, cost, lane, k).frontier.count(e)
                && st.relax(net, cost, lane, k).frontier.count(e) <= st.frontier.count(e) + 1,
    decreases k,
{
    broadcast use vstd::multiset::group_multiset_axioms;

    if k > 0 {
        lemma_reached_once(net, st, cost, lane, k - 1);
        let prev = st.relax(net, cost, lane, k - 1);
        let now = st.relax(net, cost, lane, k);
        assert forall|a: Entry, b: Entry|
            a.1 == b.1 && a != b && now.frontier.count(a) > st.frontier.count(
                a,
            ) implies now.frontier.count(b) == st.frontier.count(b) by {
            if prev.frontier.count(a) > st.frontier.count(a) {
                assert(prev.backrefs.contains_key(a.1));
            } else {
                if prev.frontier.count(b) > st.frontier.count(b) {
                    assert(prev.backrefs.contains_key(b.1));
                }
            }
        }
    }
}

} // verus!
